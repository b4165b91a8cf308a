//! What becomes of the text that a language model sends back: leaked reasoning
//! blocks are cut out, invisible characters dropped, and a structured reply is
//! unwrapped.

use crate::json;
use crate::text;
use vstd::prelude::*;
use vstd::slice::slice_subrange;

verus! {

/// An opening reasoning tag in a text: where it stands, and the tag that closes
/// it.
pub struct OpenTag {
    pub at: int,
    pub close: Seq<char>,
}

/// The first opening reasoning tag of a text.
pub open spec fn first_open_tag(s: Seq<char>) -> Option<OpenTag> {
    let think = text::find(s, "<think>"@);
    let thinking = text::find(s, "<thinking>"@);
    match (think, thinking) {
        (Some(a), Some(b)) => if a <= b {
            Some(OpenTag { at: a, close: "</think>"@ })
        } else {
            Some(OpenTag { at: b, close: "</thinking>"@ })
        },
        (Some(a), None) => Some(OpenTag { at: a, close: "</think>"@ }),
        (None, Some(b)) => Some(OpenTag { at: b, close: "</thinking>"@ }),
        (None, None) => None,
    }
}

/// A text without its reasoning blocks. A block runs from an opening tag to the
/// closing tag of the same name; one that is never closed runs to the end.
pub open spec fn without_blocks(s: Seq<char>) -> Seq<char>
    decreases s.len(),
{
    match first_open_tag(s) {
        None => s,
        Some(tag) => {
            let block = s.skip(tag.at);
            proof {
                reveal_strlit("</think>");
                reveal_strlit("</thinking>");
                text::lemma_find(s, "<think>"@);
                text::lemma_find(s, "<thinking>"@);
                text::lemma_find(block, tag.close);
            }
            match text::find(block, tag.close) {
                Some(end) => s.take(tag.at) + without_blocks(block.skip(end + tag.close.len())),
                None => s.take(tag.at),
            }
        },
    }
}

/// Whether a character is one of the invisible ones that models slip into text.
pub open spec fn is_invisible(c: char) -> bool {
    c == '\u{200b}' || c == '\u{200c}' || c == '\u{200d}' || c == '\u{feff}'
}

/// A text without its invisible characters.
pub open spec fn visible(s: Seq<char>) -> Seq<char> {
    s.filter(|c: char| !is_invisible(c))
}

/// A model reply as it is used: without reasoning blocks, trimmed, without
/// invisible characters.
pub open spec fn cleaned(s: Seq<char>) -> Seq<char> {
    visible(text::trimmed(without_blocks(s)))
}

/// Removes the invisible characters.
pub fn strip_invisible_chars(s: &str) -> (r: String)
    ensures
        r@ == visible(s@),
{
    let ghost keep = |c: char| !is_invisible(c);
    let mut out = String::new();
    for c in it: s.chars()
        invariant
            it.seq() == s@,
            keep == (|c: char| !is_invisible(c)),
            out@ == s@.take(it.index()).filter(keep),
    {
        let ghost n = it.index();
        assert(s@.take(n + 1).drop_last() =~= s@.take(n));
        assert(s@.take(n + 1).last() == c);
        reveal(Seq::filter);
        if !(c == '\u{200b}' || c == '\u{200c}' || c == '\u{200d}' || c == '\u{feff}') {
            out.push(c);
        }
    }
    assert(s@.take(s@.len() as int) =~= s@);
    out
}

/// Removes the reasoning blocks and trims what is left.
pub fn strip_reasoning_blocks(s: &str) -> (r: String)
    ensures
        r@ == text::trimmed(without_blocks(s@)),
{
    let chars = text::chars_of(s);
    let think = text::chars_of("<think>");
    let thinking = text::chars_of("<thinking>");
    let end_think = text::chars_of("</think>");
    let end_thinking = text::chars_of("</thinking>");
    proof {
        reveal_strlit("</think>");
        reveal_strlit("</thinking>");
    }
    let n: usize = chars.len();
    let mut out: Vec<char> = Vec::new();
    let mut at: usize = 0;
    assert(chars@.skip(0) =~= chars@);
    loop
        invariant_except_break
            at <= n,
            n == chars@.len(),
            chars@ == s@,
            think@ == "<think>"@,
            thinking@ == "<thinking>"@,
            end_think@ == "</think>"@,
            end_thinking@ == "</thinking>"@,
            end_think@.len() > 0,
            end_thinking@.len() > 0,
            out@ + without_blocks(chars@.skip(at as int)) == without_blocks(s@),
        ensures
            out@ == without_blocks(s@),
        decreases n - at,
    {
        let rest = slice_subrange(chars.as_slice(), at, n);
        let ghost tail = chars@.skip(at as int);
        assert(rest@ =~= tail);
        let first = text::find_chars(rest, think.as_slice());
        let second = text::find_chars(rest, thinking.as_slice());
        proof {
            text::lemma_find(tail, think@);
            text::lemma_find(tail, thinking@);
        }
        let (start, short): (usize, bool) = match (first, second) {
            (Some(a), Some(b)) => if a <= b {
                (a, true)
            } else {
                (b, false)
            },
            (Some(a), None) => (a, true),
            (None, Some(b)) => (b, false),
            (None, None) => {
                text::append_chars(&mut out, rest);
                break;
            },
        };
        let close = if short {
            end_think.as_slice()
        } else {
            end_thinking.as_slice()
        };
        let ghost before = out@;
        text::append_chars(&mut out, slice_subrange(rest, 0, start));
        assert(tail.subrange(0, start as int) =~= tail.take(start as int));
        let block = slice_subrange(rest, start, rest.len());
        assert(block@ =~= tail.skip(start as int));
        proof {
            text::lemma_find(block@, close@);
        }
        match text::find_chars(block, close) {
            Some(end) => {
                let len: usize = close.len();
                assert(block@.skip(end + len) =~= chars@.skip(at + start + end + len));
                at = at + start + end + len;
                assert(out@ + without_blocks(chars@.skip(at as int)) =~= before
                    + without_blocks(tail));
            },
            None => {
                break;
            },
        }
    }
    string_of_trimmed(out)
}

fn string_of_trimmed(chars: Vec<char>) -> (r: String)
    ensures
        r@ == text::trimmed(chars@),
{
    text::string_of(text::trim_chars(chars.as_slice()))
}

/// A model reply as it is used.
pub fn clean_reply(content: &str) -> (r: String)
    ensures
        r@ == cleaned(content@),
{
    let stripped = strip_reasoning_blocks(content);
    strip_invisible_chars(stripped.as_str())
}

/// Name of the field that holds the text in a structured reply.
pub const TRANSCRIPTION_FIELD: &'static str = "transcription";

/// The text of a structured reply: the string under the transcription field,
/// or the reply as it came where it is not JSON or holds no such string.
pub open spec fn structured_text(
    content: Seq<char>,
    document: Option<Seq<json::JsonField>>,
) -> Seq<char> {
    match document {
        Some(fields) => match json::text_at(fields, TRANSCRIPTION_FIELD@) {
            Some(t) => cleaned(t),
            None => cleaned(content),
        },
        None => cleaned(content),
    }
}

/// The text of a structured reply whose JSON has been read.
pub fn structured_reply_from(content: &str, document: &Option<Vec<json::JsonMember>>) -> (r: String)
    ensures
        r@ == structured_text(content@, json::document_of(*document)),
{
    match document {
        Some(members) => match json::member_text(members, TRANSCRIPTION_FIELD) {
            Some(t) => clean_reply(t.as_str()),
            None => clean_reply(content),
        },
        None => clean_reply(content),
    }
}

/// The text of a structured reply.
pub fn structured_reply(content: &str) -> (r: String)
    ensures
        r@ == structured_text(content@, json::json_of_text(content@)),
{
    let document = json::parse_text(content);
    structured_reply_from(content, &document)
}

/// A text without opening tags holds no reasoning block.
pub proof fn law_text_without_tags_is_kept(s: Seq<char>)
    requires
        !text::occurs(s, "<think>"@),
        !text::occurs(s, "<thinking>"@),
    ensures
        without_blocks(s) == s,
{
    text::lemma_find(s, "<think>"@);
    text::lemma_find(s, "<thinking>"@);
}

/// Whether a text starts with `<` and holds no other `<`.
spec fn tag_like(tag: Seq<char>) -> bool {
    &&& tag.len() > 0
    &&& tag[0] == '<'
    &&& forall|j: int| 0 < j < tag.len() ==> #[trigger] tag[j] != '<'
}

/// A tag that does not stand in `head` cannot stand at a position inside `head`
/// where `head` is followed by `<`.
proof fn lemma_tag_not_before(s: Seq<char>, head: Seq<char>, tag: Seq<char>)
    requires
        tag_like(tag),
        !text::occurs(head, tag),
        head.len() < s.len(),
        s.take(head.len() as int) == head,
        s[head.len() as int] == '<',
    ensures
        forall|j: int| 0 <= j < head.len() ==> !text::occurs_at(s, tag, j),
{
    assert forall|j: int| 0 <= j < head.len() implies !text::occurs_at(s, tag, j) by {
        if text::occurs_at(s, tag, j) {
            let found = s.subrange(j, j + tag.len());
            if j + tag.len() <= head.len() {
                assert(head.subrange(j, j + tag.len()) =~= found);
                assert(text::occurs_at(head, tag, j));
            } else {
                assert(found[head.len() - j] == s[head.len() as int]);
            }
        }
    }
}

proof fn lemma_tags()
    ensures
        tag_like("<think>"@),
        tag_like("<thinking>"@),
        tag_like("</think>"@),
        tag_like("</thinking>"@),
        "<think>"@.len() == 7,
        "<thinking>"@.len() == 10,
        "</think>"@.len() == 8,
        "</thinking>"@.len() == 11,
        "<think>"@[6] == '>',
        "<thinking>"@[6] == 'i',
        "<think>"@[1] == 't',
        "<thinking>"@[1] == 't',
        "</think>"@[1] == '/',
        "</thinking>"@[1] == '/',
{
    reveal_strlit("<think>");
    reveal_strlit("<thinking>");
    reveal_strlit("</think>");
    reveal_strlit("</thinking>");
}

/// Where the first opening tag of `head + open + tail` stands, `head` being free
/// of opening tags.
proof fn lemma_first_tag(head: Seq<char>, tail: Seq<char>, long: bool)
    requires
        !text::occurs(head, "<think>"@),
        !text::occurs(head, "<thinking>"@),
    ensures
        ({
            let open = if long { "<thinking>"@ } else { "<think>"@ };
            let close = if long { "</thinking>"@ } else { "</think>"@ };
            first_open_tag(head + open + tail) == Some(OpenTag { at: head.len() as int, close })
        }),
{
    lemma_tags();
    let open = if long {
        "<thinking>"@
    } else {
        "<think>"@
    };
    let s = head + open + tail;
    let n = head.len() as int;
    assert(s.take(n) =~= head);
    assert(s[n] == open[0]);
    assert(s[n + 6] == open[6]);
    lemma_tag_not_before(s, head, "<think>"@);
    lemma_tag_not_before(s, head, "<thinking>"@);
    assert(s.subrange(n, n + open.len()) =~= open);
    text::lemma_find_is(s, open, n);
    text::lemma_find(s, "<think>"@);
    text::lemma_find(s, "<thinking>"@);
    if long {
        if text::occurs_at(s, "<think>"@, n) {
            assert(s.subrange(n, n + 7)[6] == s[n + 6]);
        }
    }
}

/// The closing tag of a block whose body does not hold it is found right behind
/// the body.
proof fn lemma_close_tag(body: Seq<char>, tail: Seq<char>, long: bool)
    requires
        !text::occurs(body, if long { "</thinking>"@ } else { "</think>"@ }),
    ensures
        ({
            let open = if long { "<thinking>"@ } else { "<think>"@ };
            let close = if long { "</thinking>"@ } else { "</think>"@ };
            &&& text::find(open + body + close + tail, close) == Some((open.len() + body.len()) as int)
            &&& text::find(open + body, close) is None
        }),
{
    lemma_tags();
    let open = if long {
        "<thinking>"@
    } else {
        "<think>"@
    };
    let close = if long {
        "</thinking>"@
    } else {
        "</think>"@
    };
    let head = open + body;
    assert(!text::occurs(head, close)) by {
        if text::occurs(head, close) {
            let i = choose|i: int| text::occurs_at(head, close, i);
            let found = head.subrange(i, i + close.len());
            assert(found[0] == head[i] && found[1] == head[i + 1]);
            if i < open.len() {
                if i == 0 {
                    assert(head[1] == open[1]);
                } else {
                    assert(head[i] == open[i]);
                }
            } else {
                let k = i - open.len();
                assert(body.subrange(k, k + close.len()) =~= found);
                assert(text::occurs_at(body, close, k));
            }
        }
    }
    text::lemma_find(head, close);
    let s = head + close + tail;
    let n = head.len() as int;
    assert(s.take(n) =~= head);
    assert(s[n] == close[0]);
    lemma_tag_not_before(s, head, close);
    assert(s.subrange(n, n + close.len()) =~= close);
    text::lemma_find_is(s, close, n);
}

/// A reasoning block is cut out: what stands before it is kept, and what follows
/// it is treated in the same way.
pub proof fn law_reasoning_block_is_cut(head: Seq<char>, body: Seq<char>, tail: Seq<char>)
    requires
        !text::occurs(head, "<think>"@),
        !text::occurs(head, "<thinking>"@),
    ensures
        !text::occurs(body, "</think>"@) ==> without_blocks(
            head + "<think>"@ + body + "</think>"@ + tail,
        ) == head + without_blocks(tail),
        !text::occurs(body, "</thinking>"@) ==> without_blocks(
            head + "<thinking>"@ + body + "</thinking>"@ + tail,
        ) == head + without_blocks(tail),
{
    lemma_tags();
    if !text::occurs(body, "</think>"@) {
        lemma_cut(head, body, tail, false);
    }
    if !text::occurs(body, "</thinking>"@) {
        lemma_cut(head, body, tail, true);
    }
}

proof fn lemma_cut(head: Seq<char>, body: Seq<char>, tail: Seq<char>, long: bool)
    requires
        !text::occurs(head, "<think>"@),
        !text::occurs(head, "<thinking>"@),
        !text::occurs(body, if long { "</thinking>"@ } else { "</think>"@ }),
    ensures
        ({
            let open = if long { "<thinking>"@ } else { "<think>"@ };
            let close = if long { "</thinking>"@ } else { "</think>"@ };
            &&& without_blocks(head + open + body + close + tail) == head + without_blocks(tail)
            &&& without_blocks(head + open + body) == head
        }),
{
    lemma_tags();
    let open = if long {
        "<thinking>"@
    } else {
        "<think>"@
    };
    let close = if long {
        "</thinking>"@
    } else {
        "</think>"@
    };
    lemma_close_tag(body, tail, long);
    let n = head.len() as int;
    let s = head + open + body + close + tail;
    lemma_first_tag(head, body + close + tail, long);
    assert(head + open + (body + close + tail) =~= s);
    assert(s.take(n) =~= head);
    assert(s.skip(n) =~= open + body + close + tail);
    assert(s.skip(n).skip((open.len() + body.len() + close.len()) as int) =~= tail);
    let u = head + open + body;
    lemma_first_tag(head, body, long);
    assert(u.take(n) =~= head);
    assert(u.skip(n) =~= open + body);
}

/// A reasoning block that is never closed takes everything after it along.
pub proof fn law_unterminated_block_drops_the_tail(head: Seq<char>, body: Seq<char>)
    requires
        !text::occurs(head, "<think>"@),
        !text::occurs(head, "<thinking>"@),
    ensures
        !text::occurs(body, "</think>"@) ==> without_blocks(head + "<think>"@ + body) == head,
        !text::occurs(body, "</thinking>"@) ==> without_blocks(head + "<thinking>"@ + body) == head,
{
    if !text::occurs(body, "</think>"@) {
        lemma_cut(head, body, Seq::empty(), false);
    }
    if !text::occurs(body, "</thinking>"@) {
        lemma_cut(head, body, Seq::empty(), true);
    }
}

/// No invisible character is left, removing them again changes nothing, and a
/// text that holds none is kept.
pub proof fn law_invisible_characters_are_gone(s: Seq<char>)
    ensures
        forall|i: int| 0 <= i < visible(s).len() ==> !is_invisible(#[trigger] visible(s)[i]),
        visible(visible(s)) == visible(s),
        (forall|i: int| 0 <= i < s.len() ==> !is_invisible(#[trigger] s[i])) ==> visible(s) == s,
{
    let keep = |c: char| !is_invisible(c);
    assert forall|i: int| 0 <= i < visible(s).len() implies !is_invisible(
        #[trigger] visible(s)[i],
    ) by {
        s.lemma_filter_pred(keep, i);
    }
    lemma_all_visible(visible(s));
    if forall|i: int| 0 <= i < s.len() ==> !is_invisible(#[trigger] s[i]) {
        lemma_all_visible(s);
    }
}

proof fn lemma_all_visible(s: Seq<char>)
    requires
        forall|i: int| 0 <= i < s.len() ==> !is_invisible(#[trigger] s[i]),
    ensures
        visible(s) == s,
    decreases s.len(),
{
    reveal(Seq::filter);
    if s.len() > 0 {
        let front = s.drop_last();
        assert forall|i: int| 0 <= i < front.len() implies !is_invisible(#[trigger] front[i]) by {
            assert(front[i] == s[i]);
        }
        lemma_all_visible(front);
        assert(front.push(s.last()) =~= s);
    }
}

/// A reply is cleaned by cutting out its reasoning blocks, trimming, and dropping the
/// invisible characters: every other character of the trimmed text is kept, in order.
pub proof fn law_cleaning_keeps_all_visible_text(s: Seq<char>)
    ensures
        cleaned(s) == text::trimmed(without_blocks(s)).filter(
            |c: char| c != '\u{200b}' && c != '\u{200c}' && c != '\u{200d}' && c != '\u{feff}',
        ),
{
    let keep = |c: char| c != '\u{200b}' && c != '\u{200c}' && c != '\u{200d}' && c != '\u{feff}';
    lemma_filters_agree(
        text::trimmed(without_blocks(s)),
        keep,
        |c: char| !is_invisible(c),
    );
}

proof fn lemma_filters_agree(
    s: Seq<char>,
    p: spec_fn(char) -> bool,
    q: spec_fn(char) -> bool,
)
    requires
        forall|c: char| #[trigger] p(c) == q(c),
    ensures
        s.filter(p) == s.filter(q),
    decreases s.len(),
{
    reveal(Seq::filter);
    if s.len() > 0 {
        lemma_filters_agree(s.drop_last(), p, q);
        assert(p(s.last()) == q(s.last()));
    }
}

/// A reply without an opening reasoning tag and without invisible characters comes back
/// whole, but for white space at its ends.
pub proof fn law_plain_replies_come_back_whole(s: Seq<char>)
    requires
        !text::occurs(s, "<think>"@),
        !text::occurs(s, "<thinking>"@),
        forall|i: int|
            0 <= i < s.len() ==> (#[trigger] s[i]) != '\u{200b}' && s[i] != '\u{200c}' && s[i]
                != '\u{200d}' && s[i] != '\u{feff}',
    ensures
        cleaned(s) == text::trimmed(s),
{
    law_text_without_tags_is_kept(s);
    text::lemma_trimmed(s);
    text::lemma_trim_end(text::trim_start(s));
    let t = text::trimmed(s);
    assert forall|i: int| 0 <= i < t.len() implies !is_invisible(#[trigger] t[i]) by {
        let k = i + s.len() - text::trim_start(s).len();
        assert(t[i] == s[k]);
    }
    lemma_all_visible(t);
}

/// What stands before and after a reasoning block comes back as if the block had not been
/// there.
pub proof fn law_reasoning_leaves_no_mark(head: Seq<char>, body: Seq<char>, tail: Seq<char>)
    requires
        !text::occurs(head, "<think>"@) && !text::occurs(head, "<thinking>"@),
        !text::occurs(tail, "<think>"@) && !text::occurs(tail, "<thinking>"@),
    ensures
        !text::occurs(body, "</think>"@) ==> cleaned(
            head + "<think>"@ + body + "</think>"@ + tail,
        ) == text::trimmed(head + tail).filter(
            |c: char| c != '\u{200b}' && c != '\u{200c}' && c != '\u{200d}' && c != '\u{feff}',
        ),
        !text::occurs(body, "</thinking>"@) ==> cleaned(
            head + "<thinking>"@ + body + "</thinking>"@ + tail,
        ) == text::trimmed(head + tail).filter(
            |c: char| c != '\u{200b}' && c != '\u{200c}' && c != '\u{200d}' && c != '\u{feff}',
        ),
{
    law_reasoning_block_is_cut(head, body, tail);
    law_text_without_tags_is_kept(tail);
    law_cleaning_keeps_all_visible_text(head + "<think>"@ + body + "</think>"@ + tail);
    law_cleaning_keeps_all_visible_text(head + "<thinking>"@ + body + "</thinking>"@ + tail);
}

/// Of a structured reply the string under `transcription` is used, cleaned like any other
/// reply; without such a string, or where the reply is not JSON, the whole reply is.
pub proof fn law_structured_replies_give_their_transcription(
    content: Seq<char>,
    fields: Seq<json::JsonField>,
    i: int,
)
    requires
        0 <= i <= fields.len(),
        forall|j: int| 0 <= j < i ==> (#[trigger] fields[j]).name != "transcription"@,
        i < fields.len() ==> fields[i].name == "transcription"@,
    ensures
        i < fields.len() && fields[i].text is Some ==> structured_text(content, Some(fields))
            == cleaned(fields[i].text->0),
        i == fields.len() || fields[i].text is None ==> structured_text(content, Some(fields))
            == cleaned(content),
        structured_text(content, None) == cleaned(content),
{
    json::law_fields_are_read_by_name(fields, "transcription"@, i);
}

/// The four invisible characters are dropped wherever they stand, and every other
/// character is kept.
pub proof fn law_exactly_four_characters_are_invisible(c: char)
    ensures
        is_invisible(c) <==> c == '\u{200b}' || c == '\u{200c}' || c == '\u{200d}' || c
            == '\u{feff}',
{
}

/// What is left of a text without its invisible characters are all its other characters,
/// in order.
pub proof fn law_visible_text_is_kept(s: Seq<char>)
    ensures
        visible(s) == s.filter(
            |c: char| c != '\u{200b}' && c != '\u{200c}' && c != '\u{200d}' && c != '\u{feff}',
        ),
{
    let keep = |c: char| c != '\u{200b}' && c != '\u{200c}' && c != '\u{200d}' && c != '\u{feff}';
    lemma_filters_agree(s, keep, |c: char| !is_invisible(c));
}

} // verus!
