//! Character-level text primitives: white space, trimming, searching and
//! replacing, all stated over the sequence of characters of a text.

use vstd::prelude::*;
use vstd::slice::slice_subrange;

verus! {

/// `std::string::String::push`: appends the given character to the end of the
/// string.
pub assume_specification[ String::push ](s: &mut String, c: char)
    ensures
        final(s)@ == old(s)@.push(c),
;

/// What `str::to_lowercase` makes of a text.
pub uninterp spec fn lowercase(text: Seq<char>) -> Seq<char>;

/// The lower case of an ASCII letter; every other character is itself.
pub open spec fn ascii_lower(c: char) -> char {
    if 'A' <= c && c <= 'Z' {
        ((c as int) + 32) as char
    } else {
        c
    }
}

/// An ASCII text in lower case.
pub open spec fn ascii_lowered(s: Seq<char>) -> Seq<char> {
    s.map_values(|c: char| ascii_lower(c))
}

/// `str::to_lowercase`: the Unicode lowercase equivalent of the text. The
/// contract names it, and says what it is for ASCII text: `A` to `Z` become `a`
/// to `z`, and the rest stays.
pub assume_specification[ str::to_lowercase ](s: &str) -> (r: String)
    ensures
        r@ == lowercase(s@),
        vstd::utf8::is_ascii_chars(s@) ==> r@ == ascii_lowered(s@),
;

/// The view of an optional text.
pub open spec fn opt_text(t: Option<String>) -> Option<Seq<char>> {
    match t {
        Some(s) => Some(s@),
        None => None,
    }
}

/// Whether a character has the Unicode property `White_Space`.
pub open spec fn is_white(c: char) -> bool {
    ||| '\u{9}' <= c && c <= '\u{d}'
    ||| c == ' '
    ||| c == '\u{85}'
    ||| c == '\u{a0}'
    ||| c == '\u{1680}'
    ||| '\u{2000}' <= c && c <= '\u{200a}'
    ||| c == '\u{2028}'
    ||| c == '\u{2029}'
    ||| c == '\u{202f}'
    ||| c == '\u{205f}'
    ||| c == '\u{3000}'
}

/// Whether a character is in the Unicode category `Cc`.
pub open spec fn is_ctrl(c: char) -> bool {
    c <= '\u{1f}' || '\u{7f}' <= c && c <= '\u{9f}'
}

/// Whether a text holds nothing but white space.
pub open spec fn blank(s: Seq<char>) -> bool {
    forall|i: int| 0 <= i < s.len() ==> is_white(#[trigger] s[i])
}

/// A text without its leading white space.
pub open spec fn trim_start(s: Seq<char>) -> Seq<char>
    decreases s.len(),
{
    if s.len() > 0 && is_white(s[0]) {
        trim_start(s.drop_first())
    } else {
        s
    }
}

/// A text without its trailing white space.
pub open spec fn trim_end(s: Seq<char>) -> Seq<char>
    decreases s.len(),
{
    if s.len() > 0 && is_white(s.last()) {
        trim_end(s.drop_last())
    } else {
        s
    }
}

/// A text without its leading and trailing white space.
pub open spec fn trimmed(s: Seq<char>) -> Seq<char> {
    trim_end(trim_start(s))
}

/// Whether `pattern` stands in `s` at position `i`.
pub open spec fn occurs_at(s: Seq<char>, pattern: Seq<char>, i: int) -> bool {
    0 <= i && i + pattern.len() <= s.len() && s.subrange(i, i + pattern.len()) == pattern
}

/// Whether `pattern` stands somewhere in `s`.
pub open spec fn occurs(s: Seq<char>, pattern: Seq<char>) -> bool {
    exists|i: int| occurs_at(s, pattern, i)
}

/// The first position at or after `from` at which `pattern` stands in `s`.
pub open spec fn find_from(s: Seq<char>, pattern: Seq<char>, from: int) -> Option<int>
    decreases s.len() + 1 - from,
{
    if from < 0 || from + pattern.len() > s.len() {
        None
    } else if occurs_at(s, pattern, from) {
        Some(from)
    } else {
        find_from(s, pattern, from + 1)
    }
}

/// The first position at which `pattern` stands in `s`.
pub open spec fn find(s: Seq<char>, pattern: Seq<char>) -> Option<int> {
    find_from(s, pattern, 0)
}

/// `s` with every occurrence of `pattern`, taken from the left and without
/// overlap, replaced by `with`.
pub open spec fn replaced(s: Seq<char>, pattern: Seq<char>, with: Seq<char>) -> Seq<char>
    decreases s.len(),
    when pattern.len() > 0
{
    match find(s, pattern) {
        None => s,
        Some(i) => {
            proof {
                lemma_find(s, pattern);
            }
            s.take(i) + with + replaced(s.skip(i + pattern.len()), pattern, with)
        },
    }
}

/// Whether `s` is `suffix` or ends with it.
pub open spec fn ends_with(s: Seq<char>, suffix: Seq<char>) -> bool {
    suffix.len() <= s.len() && s.skip(s.len() - suffix.len()) == suffix
}

/// The part of `s` before its first character that satisfies `stop`, or all of
/// `s`.
pub open spec fn before_first(s: Seq<char>, stop: spec_fn(char) -> bool) -> Seq<char>
    decreases s.len(),
{
    if s.len() == 0 || stop(s[0]) {
        Seq::empty()
    } else {
        seq![s[0]] + before_first(s.drop_first(), stop)
    }
}

/// The part of `s` before the first of the given marks, or all of `s`.
pub open spec fn before_marks(s: Seq<char>, marks: Seq<char>) -> Seq<char> {
    before_first(s, |c: char| marks.contains(c))
}

/// The part of `s` after the last `mark`, or all of `s`.
pub open spec fn after_last(s: Seq<char>, mark: char) -> Seq<char>
    decreases s.len(),
{
    if s.len() == 0 || s.last() == mark {
        Seq::empty()
    } else {
        after_last(s.drop_last(), mark).push(s.last())
    }
}

/// What `find_from` finds: the first occurrence, or that there is none.
pub proof fn lemma_find_from(s: Seq<char>, pattern: Seq<char>, from: int)
    requires
        0 <= from,
    ensures
        match find_from(s, pattern, from) {
            Some(i) => from <= i && occurs_at(s, pattern, i) && forall|j: int|
                from <= j < i ==> !occurs_at(s, pattern, j),
            None => forall|j: int| from <= j ==> !occurs_at(s, pattern, j),
        },
    decreases s.len() + 1 - from,
{
    if from + pattern.len() > s.len() {
    } else if occurs_at(s, pattern, from) {
    } else {
        lemma_find_from(s, pattern, from + 1);
    }
}

/// `find` gives the first occurrence, and nothing exactly where there is none.
pub proof fn lemma_find(s: Seq<char>, pattern: Seq<char>)
    ensures
        match find(s, pattern) {
            Some(i) => occurs_at(s, pattern, i) && forall|j: int|
                0 <= j < i ==> !occurs_at(s, pattern, j),
            None => !occurs(s, pattern),
        },
{
    lemma_find_from(s, pattern, 0);
}

/// The first occurrence is where `find` points.
pub proof fn lemma_find_is(s: Seq<char>, pattern: Seq<char>, i: int)
    requires
        occurs_at(s, pattern, i),
        forall|j: int| 0 <= j < i ==> !occurs_at(s, pattern, j),
    ensures
        find(s, pattern) == Some(i),
{
    lemma_find(s, pattern);
}

/// Trimming leaves nothing of a text exactly where the text is blank.
pub proof fn lemma_blank_trimmed(s: Seq<char>)
    ensures
        blank(s) <==> trimmed(s).len() == 0,
{
    lemma_trim_start(s);
    let t = trim_start(s);
    lemma_trim_end(t);
    if blank(s) {
        if t.len() > 0 {
            assert(t[0] == s[s.len() - t.len()]);
        }
    } else {
        let i = choose|i: int| 0 <= i < s.len() && !is_white(s[i]);
        if t.len() == 0 {
            assert(is_white(s[i]));
        }
        let u = trim_end(t);
        if u.len() == 0 {
            assert(is_white(t[0]));
        }
    }
}

pub proof fn lemma_trim_start(s: Seq<char>)
    ensures
        trim_start(s).len() <= s.len(),
        trim_start(s) == s.skip(s.len() - trim_start(s).len()),
        trim_start(s).len() > 0 ==> !is_white(trim_start(s)[0]),
        forall|i: int| 0 <= i < s.len() - trim_start(s).len() ==> is_white(#[trigger] s[i]),
    decreases s.len(),
{
    if s.len() > 0 && is_white(s[0]) {
        lemma_trim_start(s.drop_first());
        let k = trim_start(s).len();
        assert(s.drop_first().skip(s.len() - 1 - k) =~= s.skip(s.len() - k));
        assert forall|i: int| 0 <= i < s.len() - k implies is_white(#[trigger] s[i]) by {
            if i > 0 {
                assert(s.drop_first()[i - 1] == s[i]);
            }
        }
    } else {
        assert(s.skip(0) =~= s);
    }
}

pub proof fn lemma_trim_end(s: Seq<char>)
    ensures
        trim_end(s).len() <= s.len(),
        trim_end(s) == s.take(trim_end(s).len() as int),
        trim_end(s).len() > 0 ==> !is_white(trim_end(s).last()),
        forall|i: int| trim_end(s).len() <= i < s.len() ==> is_white(#[trigger] s[i]),
    decreases s.len(),
{
    if s.len() > 0 && is_white(s.last()) {
        lemma_trim_end(s.drop_last());
        let k = trim_end(s).len() as int;
        assert(s.drop_last().take(k) =~= s.take(k));
        assert forall|i: int| k <= i < s.len() implies is_white(#[trigger] s[i]) by {
            if i < s.len() - 1 {
                assert(s.drop_last()[i] == s[i]);
            }
        }
    } else {
        assert(s.take(s.len() as int) =~= s);
    }
}

/// A trimmed text neither starts nor ends with white space, and is a part of the
/// text it came from.
pub proof fn lemma_trimmed(s: Seq<char>)
    ensures
        trimmed(s).len() <= s.len(),
        trimmed(s).len() > 0 ==> !is_white(trimmed(s)[0]) && !is_white(trimmed(s).last()),
        forall|i: int|
            0 <= i < trimmed(s).len() ==> #[trigger] trimmed(s)[i] == s[i + s.len() - trim_start(
                s,
            ).len()],
        trim_start(s).len() <= s.len(),
{
    lemma_trim_start(s);
    lemma_trim_end(trim_start(s));
}

/// What `before_first` takes: the longest prefix without a character that
/// satisfies `stop`.
pub proof fn lemma_before_first(s: Seq<char>, stop: spec_fn(char) -> bool)
    ensures
        before_first(s, stop).len() <= s.len(),
        before_first(s, stop) == s.take(before_first(s, stop).len() as int),
        forall|i: int| 0 <= i < before_first(s, stop).len() ==> !stop(#[trigger] s[i]),
        before_first(s, stop).len() < s.len() ==> stop(s[before_first(s, stop).len() as int]),
    decreases s.len(),
{
    if s.len() == 0 || stop(s[0]) {
        assert(s.take(0) =~= Seq::<char>::empty());
    } else {
        let rest = s.drop_first();
        lemma_before_first(rest, stop);
        let k = before_first(rest, stop).len() as int;
        assert(seq![s[0]] + rest.take(k) =~= s.take(k + 1));
        assert forall|i: int| 0 <= i < k + 1 implies !stop(#[trigger] s[i]) by {
            if i > 0 {
                assert(rest[i - 1] == s[i]);
            }
        }
        if k + 1 < s.len() {
            assert(rest[k] == s[k + 1]);
        }
    }
}

/// The longest prefix without a character that satisfies `stop` is what
/// `before_first` takes.
pub proof fn lemma_before_first_is(s: Seq<char>, stop: spec_fn(char) -> bool, k: int)
    requires
        0 <= k <= s.len(),
        forall|i: int| 0 <= i < k ==> !stop(#[trigger] s[i]),
        k < s.len() ==> stop(s[k]),
    ensures
        before_first(s, stop) == s.take(k),
{
    lemma_before_first(s, stop);
    let n = before_first(s, stop).len() as int;
    if n < k {
        assert(stop(s[n]));
    }
    if k < n {
        assert(!stop(s[k]));
    }
}

/// What `after_last` takes: the longest suffix without the mark.
pub proof fn lemma_after_last(s: Seq<char>, mark: char)
    ensures
        after_last(s, mark).len() <= s.len(),
        after_last(s, mark) == s.skip(s.len() - after_last(s, mark).len()),
        !after_last(s, mark).contains(mark),
        after_last(s, mark).len() < s.len() ==> s[s.len() - after_last(s, mark).len() - 1] == mark,
    decreases s.len(),
{
    if s.len() == 0 || s.last() == mark {
        assert(s.skip(s.len() as int) =~= Seq::<char>::empty());
    } else {
        let front = s.drop_last();
        lemma_after_last(front, mark);
        let k = after_last(front, mark).len() as int;
        assert(front.skip(front.len() - k).push(s.last()) =~= s.skip(s.len() - k - 1));
        assert forall|i: int| 0 <= i < k + 1 implies after_last(s, mark)[i] != mark by {
            if i < k {
                assert(after_last(front, mark)[i] == after_last(s, mark)[i]);
                assert(after_last(front, mark).contains(after_last(front, mark)[i]));
            }
        }
    }
}

/// The lower case of an ASCII letter; every other character is itself.
pub fn to_ascii_lower(c: char) -> (r: char)
    ensures
        r == ascii_lower(c),
{
    if 'A' <= c && c <= 'Z' {
        (c as u8 + 32) as char
    } else {
        c
    }
}

/// Whether `c` is white space.
pub fn is_whitespace(c: char) -> (r: bool)
    ensures
        r == is_white(c),
{
    ('\u{9}' <= c && c <= '\u{d}') || c == ' ' || c == '\u{85}' || c == '\u{a0}' || c == '\u{1680}'
        || ('\u{2000}' <= c && c <= '\u{200a}') || c == '\u{2028}' || c == '\u{2029}' || c
        == '\u{202f}' || c == '\u{205f}' || c == '\u{3000}'
}

/// Whether `c` is a control character.
pub fn is_control(c: char) -> (r: bool)
    ensures
        r == is_ctrl(c),
{
    c <= '\u{1f}' || ('\u{7f}' <= c && c <= '\u{9f}')
}

/// The characters of a text.
pub fn chars_of(s: &str) -> (r: Vec<char>)
    ensures
        r@ == s@,
{
    let mut out: Vec<char> = Vec::new();
    for c in it: s.chars()
        invariant
            it.seq() == s@,
            out@ == s@.take(it.index()),
    {
        out.push(c);
    }
    out
}

/// The text made of the given characters.
pub fn string_of(chars: &[char]) -> (r: String)
    ensures
        r@ == chars@,
{
    let mut out = String::new();
    for i in 0..chars.len()
        invariant
            out@ == chars@.take(i as int),
    {
        out.push(chars[i]);
    }
    assert(chars@.take(chars.len() as int) =~= chars@);
    out
}

/// Appends characters to a list of characters.
pub fn append_chars(out: &mut Vec<char>, more: &[char])
    ensures
        final(out)@ == old(out)@ + more@,
{
    for i in 0..more.len()
        invariant
            out@ == old(out)@ + more@.take(i as int),
    {
        out.push(more[i]);
        assert(more@.take(i + 1) =~= more@.take(i as int).push(more@[i as int]));
    }
    assert(more@.take(more.len() as int) =~= more@);
}

/// The characters without leading and trailing white space.
pub fn trim_chars(s: &[char]) -> (r: &[char])
    ensures
        r@ == trimmed(s@),
{
    let n: usize = s.len();
    let mut i: usize = 0;
    assert(s@.skip(0) =~= s@);
    while i < n && is_whitespace(s[i])
        invariant
            i <= n,
            n == s@.len(),
            trim_start(s@) == trim_start(s@.skip(i as int)),
        decreases n - i,
    {
        assert(s@.skip(i as int)[0] == s@[i as int]);
        assert(s@.skip(i as int).drop_first() =~= s@.skip(i + 1));
        i = i + 1;
    }
    let ghost t = s@.skip(i as int);
    assert(trim_start(s@) == t) by {
        if i < n {
            assert(t[0] == s@[i as int]);
        }
    }
    let mut j: usize = n;
    assert(t.take(n - i) =~= t);
    while j > i && is_whitespace(s[j - 1])
        invariant
            i <= j <= n,
            n == s@.len(),
            t == s@.skip(i as int),
            trim_end(t) == trim_end(t.take(j - i)),
        decreases j,
    {
        let ghost u = t.take(j - i);
        assert(u.last() == s@[j - 1]);
        assert(u.drop_last() =~= t.take(j - i - 1));
        j = j - 1;
    }
    assert(trim_end(t) == t.take(j - i)) by {
        if j > i {
            assert(t.take(j - i).last() == s@[j - 1]);
        }
    }
    assert(s@.subrange(i as int, j as int) =~= t.take(j - i));
    slice_subrange(s, i, j)
}

/// The text without leading and trailing white space.
pub fn trim_text(s: &str) -> (r: String)
    ensures
        r@ == trimmed(s@),
{
    let chars = chars_of(s);
    string_of(trim_chars(chars.as_slice()))
}

/// Whether the text holds nothing but white space.
pub fn is_blank(s: &str) -> (r: bool)
    ensures
        r == blank(s@),
{
    for c in it: s.chars()
        invariant
            it.seq() == s@,
            forall|i: int| 0 <= i < it.index() ==> is_white(#[trigger] s@[i]),
    {
        if !is_whitespace(c) {
            assert(!is_white(s@[it.index()]));
            return false;
        }
    }
    true
}

/// Whether two lists of characters are the same.
pub fn same_chars(a: &[char], b: &[char]) -> (r: bool)
    ensures
        r == (a@ == b@),
{
    if a.len() != b.len() {
        return false;
    }
    for i in 0..a.len()
        invariant
            a@.len() == b@.len(),
            forall|j: int| 0 <= j < i ==> a@[j] == b@[j],
    {
        if a[i] != b[i] {
            return false;
        }
    }
    assert(a@ =~= b@);
    true
}

/// Whether two texts are the same.
pub fn same_text(a: &str, b: &str) -> (r: bool)
    ensures
        r == (a@ == b@),
{
    let left = chars_of(a);
    let right = chars_of(b);
    same_chars(left.as_slice(), right.as_slice())
}

/// Whether `c` stands in `s`.
pub fn has_char(s: &[char], c: char) -> (r: bool)
    ensures
        r == s@.contains(c),
{
    for i in 0..s.len()
        invariant
            forall|j: int| 0 <= j < i ==> s@[j] != c,
    {
        if s[i] == c {
            return true;
        }
    }
    false
}

/// The first position at which `pattern` stands in `s`.
pub fn find_chars(s: &[char], pattern: &[char]) -> (r: Option<usize>)
    ensures
        match r {
            Some(i) => find(s@, pattern@) == Some(i as int),
            None => find(s@, pattern@) is None,
        },
{
    let n: usize = s.len();
    let m: usize = pattern.len();
    if m > n {
        return None;
    }
    let mut i: usize = 0;
    while i <= n - m
        invariant
            n == s@.len(),
            m == pattern@.len(),
            m <= n,
            i <= n - m + 1,
            find(s@, pattern@) == find_from(s@, pattern@, i as int),
        decreases n - i,
    {
        if same_chars(slice_subrange(s, i, i + m), pattern) {
            return Some(i);
        }
        if i == n - m {
            assert(find_from(s@, pattern@, i + 1) is None);
            return None;
        }
        i = i + 1;
    }
    None
}

/// Whether `s` ends with `suffix`.
pub fn ends_with_chars(s: &[char], suffix: &[char]) -> (r: bool)
    ensures
        r == ends_with(s@, suffix@),
{
    let n: usize = s.len();
    let m: usize = suffix.len();
    if m > n {
        return false;
    }
    assert(s@.subrange(n - m, n as int) =~= s@.skip(n - m));
    same_chars(slice_subrange(s, n - m, n), suffix)
}

/// `s` with every occurrence of `pattern` replaced by `with`.
pub fn replace_chars(s: &[char], pattern: &[char], with: &[char]) -> (r: Vec<char>)
    requires
        pattern@.len() > 0,
    ensures
        r@ == replaced(s@, pattern@, with@),
{
    let mut out: Vec<char> = Vec::new();
    let n: usize = s.len();
    let mut at: usize = 0;
    assert(s@.skip(0) =~= s@);
    loop
        invariant
            at <= n,
            n == s@.len(),
            pattern@.len() > 0,
            out@ + replaced(s@.skip(at as int), pattern@, with@) == replaced(s@, pattern@, with@),
        decreases n - at,
    {
        let rest = slice_subrange(s, at, n);
        let ghost tail = s@.skip(at as int);
        assert(rest@ =~= tail);
        proof {
            lemma_find(tail, pattern@);
        }
        match find_chars(rest, pattern) {
            None => {
                append_chars(&mut out, rest);
                return out;
            },
            Some(i) => {
                let ghost before = out@;
                append_chars(&mut out, slice_subrange(rest, 0, i));
                append_chars(&mut out, with);
                assert(tail.subrange(0, i as int) =~= tail.take(i as int));
                assert(tail.skip(i + pattern@.len()) =~= s@.skip(at + i + pattern@.len()));
                at = at + i + pattern.len();
                assert(out@ + replaced(s@.skip(at as int), pattern@, with@) =~= before
                    + replaced(tail, pattern@, with@));
            },
        }
    }
}

/// The part of `s` before the first of the given marks, or all of `s`.
pub fn before_any<'a>(s: &'a [char], marks: &[char]) -> (r: &'a [char])
    ensures
        r@ == before_marks(s@, marks@),
{
    let n: usize = s.len();
    let mut i: usize = 0;
    while i < n && !has_char(marks, s[i])
        invariant
            i <= n,
            n == s@.len(),
            forall|j: int| 0 <= j < i ==> !marks@.contains(#[trigger] s@[j]),
        decreases n - i,
    {
        i = i + 1;
    }
    proof {
        lemma_before_first_is(s@, |c: char| marks@.contains(c), i as int);
    }
    assert(s@.subrange(0, i as int) =~= s@.take(i as int));
    slice_subrange(s, 0, i)
}

/// The part of `s` before its first white space, or all of `s`.
pub fn before_white(s: &[char]) -> (r: &[char])
    ensures
        r@ == before_first(s@, |c: char| is_white(c)),
{
    let n: usize = s.len();
    let mut i: usize = 0;
    while i < n && !is_whitespace(s[i])
        invariant
            i <= n,
            n == s@.len(),
            forall|j: int| 0 <= j < i ==> !is_white(#[trigger] s@[j]),
        decreases n - i,
    {
        i = i + 1;
    }
    proof {
        lemma_before_first_is(s@, |c: char| is_white(c), i as int);
    }
    assert(s@.subrange(0, i as int) =~= s@.take(i as int));
    slice_subrange(s, 0, i)
}

/// The part of `s` after the last `mark`, or all of `s`.
pub fn after_last_mark(s: &[char], mark: char) -> (r: &[char])
    ensures
        r@ == after_last(s@, mark),
{
    let n: usize = s.len();
    let mut i: usize = n;
    assert(s@.take(n as int) =~= s@);
    assert(after_last(s@.take(n as int), mark) + s@.skip(n as int) =~= after_last(s@, mark));
    while i > 0 && s[i - 1] != mark
        invariant
            i <= n,
            n == s@.len(),
            after_last(s@.take(i as int), mark) + s@.skip(i as int) == after_last(s@, mark),
        decreases i,
    {
        let ghost head = s@.take(i as int);
        assert(head.last() == s@[i - 1]);
        assert(head.drop_last() =~= s@.take(i - 1));
        assert(after_last(s@.take(i - 1), mark) + s@.skip(i - 1) =~= after_last(head, mark)
            + s@.skip(i as int));
        i = i - 1;
    }
    assert(after_last(s@.take(i as int), mark) =~= Seq::<char>::empty()) by {
        if i > 0 {
            assert(s@.take(i as int).last() == s@[i - 1]);
        }
    }
    assert(s@.subrange(i as int, n as int) =~= Seq::<char>::empty() + s@.skip(i as int));
    slice_subrange(s, i, n)
}

/// Trimming cuts off nothing but white space, from both ends, and all of it: what is
/// left stands in the text as it was, and neither starts nor ends with white space.
pub proof fn law_trimming_cuts_white_space_only(s: Seq<char>)
    ensures
        exists|start: int|
            #![trigger s.subrange(start, start + trimmed(s).len())]
            {
                &&& 0 <= start && start + trimmed(s).len() <= s.len()
                &&& s.subrange(start, start + trimmed(s).len()) == trimmed(s)
                &&& forall|i: int| 0 <= i < start ==> is_white(#[trigger] s[i])
                &&& forall|i: int|
                    start + trimmed(s).len() <= i < s.len() ==> is_white(#[trigger] s[i])
            },
        trimmed(s).len() > 0 ==> !is_white(trimmed(s)[0]) && !is_white(trimmed(s).last()),
{
    lemma_trim_start(s);
    let rest = trim_start(s);
    lemma_trim_end(rest);
    lemma_trimmed(s);
    let start = s.len() - rest.len();
    assert(s.subrange(start, start + trimmed(s).len()) =~= trimmed(s));
    assert forall|i: int| start + trimmed(s).len() <= i < s.len() implies is_white(
        #[trigger] s[i],
    ) by {
        assert(rest[i - start] == s[i]);
    }
}

/// Trimming a text that is trimmed, or padding one before it is trimmed, changes nothing.
pub proof fn law_trimming_ignores_padding(before: Seq<char>, s: Seq<char>, after: Seq<char>)
    requires
        blank(before),
        blank(after),
        s.len() > 0 ==> !is_white(s[0]) && !is_white(s.last()),
    ensures
        trimmed(before + s + after) == s,
    decreases before.len() + after.len(),
{
    let whole = before + s + after;
    if before.len() > 0 {
        let rest = before.drop_first();
        assert(whole[0] == before[0]);
        assert(whole.drop_first() =~= rest + s + after);
        assert(blank(rest)) by {
            assert forall|i: int| 0 <= i < rest.len() implies is_white(#[trigger] rest[i]) by {
                assert(rest[i] == before[i + 1]);
            }
        }
        law_trimming_ignores_padding(rest, s, after);
    } else if s.len() == 0 {
        lemma_blank_trimmed(whole);
        assert(whole =~= after);
    } else if after.len() > 0 {
        assert(whole[0] == s[0]);
        let rest = after.drop_last();
        assert(whole.last() == after.last());
        assert(whole.drop_last() =~= before + s + rest);
        assert((before + s + rest)[0] == s[0]);
        assert(blank(rest)) by {
            assert forall|i: int| 0 <= i < rest.len() implies is_white(#[trigger] rest[i]) by {
                assert(rest[i] == after[i]);
            }
        }
        law_trimming_ignores_padding(before, s, rest);
    } else {
        assert(whole =~= s);
    }
}

/// What is found is the first place at which the pattern stands.
pub proof fn law_the_first_occurrence_is_found(s: Seq<char>, pattern: Seq<char>)
    ensures
        match find(s, pattern) {
            Some(i) => {
                &&& 0 <= i && i + pattern.len() <= s.len()
                &&& s.subrange(i, i + pattern.len()) == pattern
                &&& forall|j: int|
                    0 <= j < i && j + pattern.len() <= s.len() ==> #[trigger] s.subrange(
                        j,
                        j + pattern.len(),
                    ) != pattern
            },
            None => forall|j: int|
                0 <= j && j + pattern.len() <= s.len() ==> #[trigger] s.subrange(
                    j,
                    j + pattern.len(),
                ) != pattern,
        },
{
    lemma_find(s, pattern);
    match find(s, pattern) {
        Some(i) => {
            assert forall|j: int| 0 <= j < i && j + pattern.len() <= s.len() implies
                #[trigger] s.subrange(j, j + pattern.len()) != pattern by {
                assert(!occurs_at(s, pattern, j));
            }
        },
        None => {
            assert forall|j: int| 0 <= j && j + pattern.len() <= s.len() implies
                #[trigger] s.subrange(j, j + pattern.len()) != pattern by {
                assert(!occurs_at(s, pattern, j));
            }
        },
    }
}

/// White space are the characters with the Unicode property `White_Space`, told by their
/// code points; control characters are those of category `Cc`; and of all characters only
/// the 26 capital letters of ASCII have another ASCII lower case, 32 places on.
pub proof fn law_characters_are_told_by_code_point(c: char)
    ensures
        ({
            let n = c as int;
            &&& is_white(c) <==> {
                ||| 0x9 <= n <= 0xd
                ||| n == 0x20 || n == 0x85 || n == 0xa0 || n == 0x1680
                ||| 0x2000 <= n <= 0x200a
                ||| n == 0x2028 || n == 0x2029 || n == 0x202f || n == 0x205f || n == 0x3000
            }
            &&& is_ctrl(c) <==> n < 0x20 || 0x7f <= n <= 0x9f
            &&& 65 <= n <= 90 ==> ascii_lower(c) as int == n + 32
            &&& n < 65 || n > 90 ==> ascii_lower(c) == c
        }),
{
}

/// Lowercasing an ASCII text lowers each of its characters, in place.
pub proof fn law_lowercasing_goes_by_character(s: Seq<char>, i: int)
    requires
        0 <= i < s.len(),
    ensures
        ascii_lowered(s).len() == s.len(),
        'A' <= s[i] && s[i] <= 'Z' ==> ascii_lowered(s)[i] as int == s[i] as int + 32,
        !('A' <= s[i] && s[i] <= 'Z') ==> ascii_lowered(s)[i] == s[i],
{
}

/// A text is blank exactly where trimming leaves nothing of it, and where it holds nothing
/// but white space.
pub proof fn law_blank_texts_trim_to_nothing(s: Seq<char>)
    ensures
        blank(s) <==> trimmed(s).len() == 0,
        blank(s) <==> forall|i: int| 0 <= i < s.len() ==> is_white(#[trigger] s[i]),
        blank(Seq::empty()),
{
    lemma_blank_trimmed(s);
}

/// Where a pattern stands for the first time it gives way to the replacement, whole; what
/// stands before it is kept, and what follows is treated in the same way. A text without
/// the pattern is kept.
pub proof fn law_replacing_goes_from_the_left(
    s: Seq<char>,
    pattern: Seq<char>,
    with: Seq<char>,
    i: int,
)
    requires
        pattern.len() > 0,
        0 <= i <= s.len(),
        forall|j: int|
            0 <= j < i && j + pattern.len() <= s.len() ==> #[trigger] s.subrange(
                j,
                j + pattern.len(),
            ) != pattern,
        i < s.len() ==> i + pattern.len() <= s.len() && s.subrange(i, i + pattern.len()) == pattern,
    ensures
        i < s.len() ==> replaced(s, pattern, with) == s.take(i) + with + replaced(
            s.skip(i + pattern.len()),
            pattern,
            with,
        ),
        i == s.len() ==> replaced(s, pattern, with) == s,
{
    assert forall|j: int| 0 <= j < i implies !occurs_at(s, pattern, j) by {
        if j + pattern.len() <= s.len() {
            assert(s.subrange(j, j + pattern.len()) != pattern);
        }
    }
    lemma_find(s, pattern);
    if i < s.len() {
        lemma_find_is(s, pattern, i);
    }
}

/// A text ends with another exactly where it is something followed by that other.
pub proof fn law_endings_follow_something(s: Seq<char>, suffix: Seq<char>)
    ensures
        ends_with(s, suffix) <==> exists|head: Seq<char>| #[trigger] (head + suffix) == s,
{
    if ends_with(s, suffix) {
        let head = s.take(s.len() - suffix.len());
        assert(head + suffix =~= s);
    }
    if exists|head: Seq<char>| #[trigger] (head + suffix) == s {
        let head = choose|head: Seq<char>| #[trigger] (head + suffix) == s;
        assert(s.skip(s.len() - suffix.len()) =~= suffix);
    }
}

/// What stands before the first of some marks: a prefix that holds none of them, and that
/// is followed by one, or is the whole text.
pub proof fn law_the_first_mark_ends_a_part(head: Seq<char>, tail: Seq<char>, marks: Seq<char>)
    requires
        forall|i: int| 0 <= i < head.len() ==> !marks.contains(#[trigger] head[i]),
        tail.len() > 0 ==> marks.contains(tail[0]),
    ensures
        before_marks(head + tail, marks) == head,
{
    let s = head + tail;
    assert forall|i: int| 0 <= i < head.len() implies !marks.contains(#[trigger] s[i]) by {
        assert(s[i] == head[i]);
    }
    if tail.len() > 0 {
        assert(s[head.len() as int] == tail[0]);
    }
    lemma_before_first_is(s, |c: char| marks.contains(c), head.len() as int);
    assert(s.take(head.len() as int) =~= head);
}

/// What stands after the last mark: a suffix without it, behind a mark, or the whole text
/// where there is none.
pub proof fn law_the_last_mark_starts_a_part(head: Seq<char>, tail: Seq<char>, mark: char)
    requires
        forall|i: int| 0 <= i < tail.len() ==> #[trigger] tail[i] != mark,
        head.len() > 0 ==> head.last() == mark,
    ensures
        after_last(head + tail, mark) == tail,
{
    let s = head + tail;
    lemma_after_last(s, mark);
    let found = after_last(s, mark);
    if found.len() < tail.len() {
        assert(s[s.len() - found.len() - 1] == tail[tail.len() - found.len() - 1]);
    }
    if found.len() > tail.len() {
        let k = found.len() - tail.len() - 1;
        assert(found[k] == s[s.len() - found.len() + k]);
        assert(s[head.len() - 1] == mark);
        assert(found.contains(found[k]));
    }
    assert(s.skip(head.len() as int) =~= tail);
}

} // verus!
