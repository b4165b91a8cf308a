//! The user settings that dictation, cleanup and preview decisions read.

use crate::text;
use vstd::prelude::*;

verus! {

/// How much of the overlay panel the user wants to see.
#[derive(Clone, Copy, Debug, PartialEq, Eq, Structural)]
pub enum OverlayStyle {
    Off,
    Minimal,
    Live,
}

/// Maps a pattern over the destination to a tone.
#[derive(Debug)]
pub struct ContextToneRule {
    pub pattern: String,
    /// The id of a tone preset, or a free-text instruction.
    pub tone: String,
}

/// A named tone with the instruction that produces it.
#[derive(Debug)]
pub struct TonePreset {
    pub id: String,
    pub instruction: String,
}

/// A chat-completion endpoint for the cleanup pass.
#[derive(Debug)]
pub struct PostProcessProvider {
    pub id: String,
    pub base_url: String,
    pub supports_structured_output: bool,
}

/// A cleanup prompt template.
#[derive(Debug)]
pub struct PostProcessPrompt {
    pub id: String,
    pub prompt: String,
}

/// A value stored under a provider id.
#[derive(Debug)]
pub struct ProviderEntry {
    pub provider_id: String,
    pub value: String,
}

/// Values stored under provider ids.
#[derive(Debug)]
pub struct ProviderMap {
    pub entries: Vec<ProviderEntry>,
}

/// The provider id of the local, OpenAI-compatible server.
pub const CUSTOM_PROVIDER_ID: &'static str = "custom";

/// The provider id of OpenRouter.
pub const OPENROUTER_PROVIDER_ID: &'static str = "openrouter";

/// The provider id of Apple's on-device model.
pub const APPLE_INTELLIGENCE_PROVIDER_ID: &'static str = "apple_intelligence";

#[derive(Debug)]
pub struct AppSettings {
    /// Adapt the tone to the destination application.
    pub context_aware_enabled: bool,
    pub context_tone_rules: Vec<ContextToneRule>,
    pub tone_presets: Vec<TonePreset>,
    pub post_process_providers: Vec<PostProcessProvider>,
    /// The id of the provider in use.
    pub post_process_provider_id: String,
    /// The model chosen for each provider.
    pub post_process_models: ProviderMap,
    /// The API key of each provider.
    pub post_process_api_keys: ProviderMap,
    pub post_process_prompts: Vec<PostProcessPrompt>,
    pub post_process_selected_prompt_id: Option<String>,
    /// Clean up every transcription, not only those of the dedicated hotkey.
    pub always_post_process: bool,
    pub always_on_microphone: bool,
    pub vad_enabled: bool,
    /// Stream a second, fast model into the preview.
    pub preview_model_enabled: bool,
    pub overlay_style: OverlayStyle,
    pub selected_model: String,
    pub selected_language: String,
}

impl Clone for PostProcessProvider {
    fn clone(&self) -> (r: Self)
        ensures
            r == *self,
    {
        PostProcessProvider {
            id: self.id.clone(),
            base_url: self.base_url.clone(),
            supports_structured_output: self.supports_structured_output,
        }
    }
}

/// The first provider with the given id.
pub open spec fn provider_with_id(
    providers: Seq<PostProcessProvider>,
    id: Seq<char>,
) -> Option<PostProcessProvider>
    decreases providers.len(),
{
    if providers.len() == 0 {
        None
    } else if providers[0].id@ == id {
        Some(providers[0])
    } else {
        provider_with_id(providers.drop_first(), id)
    }
}

/// The first prompt template with the given id.
pub open spec fn prompt_with_id(prompts: Seq<PostProcessPrompt>, id: Seq<char>) -> Option<
    PostProcessPrompt,
>
    decreases prompts.len(),
{
    if prompts.len() == 0 {
        None
    } else if prompts[0].id@ == id {
        Some(prompts[0])
    } else {
        prompt_with_id(prompts.drop_first(), id)
    }
}

/// The instruction of the first preset with the given id.
pub open spec fn preset_instruction(presets: Seq<TonePreset>, id: Seq<char>) -> Option<Seq<char>>
    decreases presets.len(),
{
    if presets.len() == 0 {
        None
    } else if presets[0].id@ == id {
        Some(presets[0].instruction@)
    } else {
        preset_instruction(presets.drop_first(), id)
    }
}

/// The map that a list of entries stands for; of entries with one id, the first counts.
pub open spec fn map_of(entries: Seq<ProviderEntry>) -> Map<Seq<char>, Seq<char>>
    decreases entries.len(),
{
    if entries.len() == 0 {
        Map::empty()
    } else {
        map_of(entries.drop_first()).insert(entries[0].provider_id@, entries[0].value@)
    }
}

/// Whether no two entries share a provider id.
pub open spec fn distinct_ids(entries: Seq<ProviderEntry>) -> bool {
    forall|i: int, j: int|
        0 <= i < j < entries.len() ==> (#[trigger] entries[i]).provider_id@ != (
        #[trigger] entries[j]).provider_id@
}

impl View for ProviderMap {
    type V = Map<Seq<char>, Seq<char>>;

    open spec fn view(&self) -> Map<Seq<char>, Seq<char>> {
        map_of(self.entries@)
    }
}

/// The value stored under a provider id; nothing stored reads as empty.
pub open spec fn value_for(map: Map<Seq<char>, Seq<char>>, provider_id: Seq<char>) -> Seq<char> {
    if map.contains_key(provider_id) {
        map[provider_id]
    } else {
        Seq::empty()
    }
}

fn find_entry(entries: &Vec<ProviderEntry>, provider_id: &str) -> (r: Option<usize>)
    ensures
        match r {
            Some(i) => {
                &&& i < entries@.len()
                &&& entries@[i as int].provider_id@ == provider_id@
                &&& forall|j: int|
                    0 <= j < i ==> (#[trigger] entries@[j]).provider_id@ != provider_id@
            },
            None => forall|j: int|
                0 <= j < entries@.len() ==> (#[trigger] entries@[j]).provider_id@ != provider_id@,
        },
{
    for i in 0..entries.len()
        invariant
            forall|j: int| 0 <= j < i ==> (#[trigger] entries@[j]).provider_id@ != provider_id@,
    {
        if text::same_text(entries[i].provider_id.as_str(), provider_id) {
            return Some(i);
        }
    }
    None
}

/// The first entry with an id is the one that the map holds; without one the map does
/// not hold the id.
proof fn lemma_map_of(entries: Seq<ProviderEntry>, id: Seq<char>, place: int)
    requires
        0 <= place <= entries.len(),
        forall|j: int| 0 <= j < place ==> (#[trigger] entries[j]).provider_id@ != id,
        place < entries.len() ==> entries[place].provider_id@ == id,
    ensures
        map_of(entries).contains_key(id) == (place < entries.len()),
        place < entries.len() ==> map_of(entries)[id] == entries[place].value@,
    decreases entries.len(),
{
    if entries.len() > 0 && place > 0 {
        let rest = entries.drop_first();
        assert(entries[0].provider_id@ != id);
        assert forall|j: int| 0 <= j < place - 1 implies (#[trigger] rest[j]).provider_id@ != id by {
            assert(rest[j] == entries[j + 1]);
        }
        lemma_map_of(rest, id, place - 1);
    }
}

proof fn lemma_map_changed(
    entries: Seq<ProviderEntry>,
    place: int,
    entry: ProviderEntry,
)
    requires
        0 <= place <= entries.len(),
        forall|j: int|
            0 <= j < place ==> (#[trigger] entries[j]).provider_id@ != entry.provider_id@,
        place < entries.len() ==> entries[place].provider_id@ == entry.provider_id@,
    ensures
        map_of(
            if place < entries.len() {
                entries.update(place, entry)
            } else {
                entries.push(entry)
            },
        ) == map_of(entries).insert(entry.provider_id@, entry.value@),
    decreases entries.len(),
{
    let next = if place < entries.len() {
        entries.update(place, entry)
    } else {
        entries.push(entry)
    };
    let id = entry.provider_id@;
    if entries.len() == 0 {
        assert(next.drop_first() =~= entries);
    } else if place == 0 {
        assert(next.drop_first() =~= entries.drop_first());
        assert(map_of(next) =~= map_of(entries).insert(id, entry.value@));
    } else {
        let rest = entries.drop_first();
        assert(entries[0].provider_id@ != id);
        assert forall|j: int| 0 <= j < place - 1 implies (#[trigger] rest[j]).provider_id@ != id by {
            assert(rest[j] == entries[j + 1]);
        }
        lemma_map_changed(rest, place - 1, entry);
        if place < entries.len() {
            assert(next.drop_first() =~= rest.update(place - 1, entry));
        } else {
            assert(next.drop_first() =~= rest.push(entry));
        }
        assert(next[0] == entries[0]);
        assert(map_of(next) =~= map_of(entries).insert(id, entry.value@));
    }
}

impl ProviderMap {
    /// No provider id stands twice.
    pub open spec fn wf(self) -> bool {
        distinct_ids(self.entries@)
    }

    /// Nothing stored.
    pub fn new() -> (r: Self)
        ensures
            r.wf(),
            r@ == Map::<Seq<char>, Seq<char>>::empty(),
    {
        ProviderMap { entries: Vec::new() }
    }

    /// Stores a value under a provider id, in place of the one that is there.
    pub fn insert(&mut self, provider_id: String, value: String)
        ensures
            final(self)@ == old(self)@.insert(provider_id@, value@),
            old(self).wf() ==> final(self).wf(),
    {
        let ghost before = self.entries@;
        let ghost id = provider_id@;
        let found = find_entry(&self.entries, provider_id.as_str());
        let entry = ProviderEntry { provider_id, value };
        match found {
            Some(i) => {
                proof {
                    lemma_map_changed(before, i as int, entry);
                }
                self.entries.set(i, entry);
                assert(self.entries@ =~= before.update(i as int, entry));
            },
            None => {
                proof {
                    lemma_map_changed(before, before.len() as int, entry);
                }
                self.entries.push(entry);
                assert(self.entries@ =~= before.push(entry));
            },
        }
        assert(distinct_ids(before) ==> distinct_ids(self.entries@)) by {
            if distinct_ids(before) {
                let after = self.entries@;
                assert forall|i: int, j: int| 0 <= i < j < after.len() implies (
                #[trigger] after[i]).provider_id@ != (#[trigger] after[j]).provider_id@ by {
                    if i < before.len() {
                        assert(after[i].provider_id@ == before[i].provider_id@);
                    }
                    if j < before.len() {
                        assert(after[j].provider_id@ == before[j].provider_id@);
                    }
                }
            }
        }
    }

    /// The value stored under a provider id; nothing stored reads as empty.
    pub fn value(&self, provider_id: &str) -> (r: String)
        ensures
            r@ == value_for(self@, provider_id@),
    {
        match find_entry(&self.entries, provider_id) {
            Some(i) => {
                proof {
                    lemma_map_of(self.entries@, provider_id@, i as int);
                }
                self.entries[i].value.clone()
            },
            None => {
                proof {
                    lemma_map_of(self.entries@, provider_id@, self.entries@.len() as int);
                }
                String::new()
            },
        }
    }
}

/// The instruction of the preset with the given id.
pub fn find_preset(presets: &Vec<TonePreset>, id: &str) -> (r: Option<String>)
    ensures
        match r {
            Some(t) => preset_instruction(presets@, id@) == Some(t@),
            None => preset_instruction(presets@, id@) is None,
        },
{
    let n: usize = presets.len();
    let mut i: usize = 0;
    assert(presets@.skip(0) =~= presets@);
    while i < n
        invariant
            i <= n,
            n == presets@.len(),
            preset_instruction(presets@, id@) == preset_instruction(presets@.skip(i as int), id@),
        decreases n - i,
    {
        assert(presets@.skip(i as int).drop_first() =~= presets@.skip(i + 1));
        if text::same_text(presets[i].id.as_str(), id) {
            return Some(presets[i].instruction.clone());
        }
        i = i + 1;
    }
    None
}

/// The prompt template with the given id.
pub fn find_prompt<'a>(prompts: &'a Vec<PostProcessPrompt>, id: &str) -> (r: Option<
    &'a PostProcessPrompt,
>)
    ensures
        match r {
            Some(p) => prompt_with_id(prompts@, id@) == Some(*p),
            None => prompt_with_id(prompts@, id@) is None,
        },
{
    let n: usize = prompts.len();
    let mut i: usize = 0;
    assert(prompts@.skip(0) =~= prompts@);
    while i < n
        invariant
            i <= n,
            n == prompts@.len(),
            prompt_with_id(prompts@, id@) == prompt_with_id(prompts@.skip(i as int), id@),
        decreases n - i,
    {
        assert(prompts@.skip(i as int).drop_first() =~= prompts@.skip(i + 1));
        if text::same_text(prompts[i].id.as_str(), id) {
            return Some(&prompts[i]);
        }
        i = i + 1;
    }
    None
}

/// The provider with the given id.
fn find_provider<'a>(providers: &'a Vec<PostProcessProvider>, id: &str) -> (r: Option<
    &'a PostProcessProvider,
>)
    ensures
        match r {
            Some(p) => provider_with_id(providers@, id@) == Some(*p),
            None => provider_with_id(providers@, id@) is None,
        },
{
    let n: usize = providers.len();
    let mut i: usize = 0;
    assert(providers@.skip(0) =~= providers@);
    while i < n
        invariant
            i <= n,
            n == providers@.len(),
            provider_with_id(providers@, id@) == provider_with_id(providers@.skip(i as int), id@),
        decreases n - i,
    {
        assert(providers@.skip(i as int).drop_first() =~= providers@.skip(i + 1));
        if text::same_text(providers[i].id.as_str(), id) {
            return Some(&providers[i]);
        }
        i = i + 1;
    }
    None
}

impl AppSettings {
    /// No provider has two models or two keys.
    pub open spec fn wf(self) -> bool {
        self.post_process_models.wf() && self.post_process_api_keys.wf()
    }

    /// The provider with the given id.
    pub fn post_process_provider(&self, id: &str) -> (r: Option<&PostProcessProvider>)
        ensures
            match r {
                Some(p) => provider_with_id(self.post_process_providers@, id@) == Some(*p),
                None => provider_with_id(self.post_process_providers@, id@) is None,
            },
    {
        find_provider(&self.post_process_providers, id)
    }

    /// The provider in use, as a value.
    pub open spec fn active_provider(self) -> Option<PostProcessProvider> {
        provider_with_id(self.post_process_providers@, self.post_process_provider_id@)
    }

    /// The provider in use.
    pub fn active_post_process_provider(&self) -> (r: Option<&PostProcessProvider>)
        ensures
            match r {
                Some(p) => self.active_provider() == Some(*p),
                None => self.active_provider() is None,
            },
    {
        self.post_process_provider(self.post_process_provider_id.as_str())
    }

    /// The selected prompt template, as a value.
    pub open spec fn selected_prompt(self) -> Option<PostProcessPrompt> {
        match self.post_process_selected_prompt_id {
            Some(id) => prompt_with_id(self.post_process_prompts@, id@),
            None => None,
        }
    }

    /// The selected prompt template.
    pub fn selected_post_process_prompt(&self) -> (r: Option<&PostProcessPrompt>)
        ensures
            match r {
                Some(p) => self.selected_prompt() == Some(*p),
                None => self.selected_prompt() is None,
            },
    {
        match &self.post_process_selected_prompt_id {
            Some(id) => find_prompt(&self.post_process_prompts, id.as_str()),
            None => None,
        }
    }
}

/// What is stored under an id is read back, and nothing else changes.
pub proof fn law_stored_values_are_read_back(
    map: Map<Seq<char>, Seq<char>>,
    stored: Seq<char>,
    value: Seq<char>,
    id: Seq<char>,
)
    ensures
        value_for(map.insert(stored, value), id) == (if id == stored {
            value
        } else {
            value_for(map, id)
        }),
{
}

/// Where no provider id stands twice, the value under an id is that of the entry which
/// bears it, wherever it stands.
pub proof fn law_entries_are_found_wherever_they_stand(entries: Seq<ProviderEntry>, i: int)
    requires
        distinct_ids(entries),
        0 <= i < entries.len(),
    ensures
        value_for(map_of(entries), entries[i].provider_id@) == entries[i].value@,
{
    lemma_map_of(entries, entries[i].provider_id@, i);
}

/// The order of entries does not matter: two lists without a repeated id that hold the
/// same entries stand for the same map.
pub proof fn law_entry_order_is_irrelevant(a: Seq<ProviderEntry>, b: Seq<ProviderEntry>)
    requires
        distinct_ids(a),
        distinct_ids(b),
        forall|e: ProviderEntry| a.contains(e) <==> b.contains(e),
    ensures
        map_of(a) == map_of(b),
{
    let (m, n) = (map_of(a), map_of(b));
    assert forall|id: Seq<char>| #[trigger] m.dom().contains(id) == n.dom().contains(id) by {
        lemma_same_entry(a, b, id);
        lemma_same_entry(b, a, id);
    }
    assert forall|id: Seq<char>| #[trigger] m.dom().contains(id) implies m[id] == n[id] by {
        lemma_same_entry(a, b, id);
    }
    assert(m.dom() =~= n.dom());
    assert(m =~= n);
}

proof fn lemma_same_entry(a: Seq<ProviderEntry>, b: Seq<ProviderEntry>, id: Seq<char>)
    requires
        distinct_ids(a),
        distinct_ids(b),
        forall|e: ProviderEntry| a.contains(e) ==> b.contains(e),
    ensures
        map_of(a).contains_key(id) ==> map_of(b).contains_key(id) && map_of(a)[id] == map_of(b)[id],
{
    if exists|i: int| 0 <= i < a.len() && (#[trigger] a[i]).provider_id@ == id {
        let i = choose|i: int| 0 <= i < a.len() && (#[trigger] a[i]).provider_id@ == id;
        lemma_map_of(a, id, i);
        assert(a.contains(a[i]));
        assert(b.contains(a[i]));
        let j = choose|j: int| 0 <= j < b.len() && b[j] == a[i];
        lemma_map_of(b, id, j);
    } else {
        lemma_map_of(a, id, a.len() as int);
    }
}

/// The provider with an id is the first that bears it, and there is none where none does.
pub proof fn law_providers_are_found_by_id(
    providers: Seq<PostProcessProvider>,
    id: Seq<char>,
    i: int,
)
    requires
        0 <= i <= providers.len(),
        forall|j: int| 0 <= j < i ==> (#[trigger] providers[j]).id@ != id,
        i < providers.len() ==> providers[i].id@ == id,
    ensures
        provider_with_id(providers, id) == (if i < providers.len() {
            Some(providers[i])
        } else {
            None
        }),
    decreases providers.len(),
{
    if providers.len() > 0 && i > 0 {
        let rest = providers.drop_first();
        assert(providers[0].id@ != id);
        assert forall|j: int| 0 <= j < i - 1 implies (#[trigger] rest[j]).id@ != id by {
            assert(rest[j] == providers[j + 1]);
        }
        law_providers_are_found_by_id(rest, id, i - 1);
    }
}

/// The prompt template with an id is the first that bears it, and there is none where
/// none does.
pub proof fn law_prompts_are_found_by_id(prompts: Seq<PostProcessPrompt>, id: Seq<char>, i: int)
    requires
        0 <= i <= prompts.len(),
        forall|j: int| 0 <= j < i ==> (#[trigger] prompts[j]).id@ != id,
        i < prompts.len() ==> prompts[i].id@ == id,
    ensures
        prompt_with_id(prompts, id) == (if i < prompts.len() {
            Some(prompts[i])
        } else {
            None
        }),
    decreases prompts.len(),
{
    if prompts.len() > 0 && i > 0 {
        let rest = prompts.drop_first();
        assert(prompts[0].id@ != id);
        assert forall|j: int| 0 <= j < i - 1 implies (#[trigger] rest[j]).id@ != id by {
            assert(rest[j] == prompts[j + 1]);
        }
        law_prompts_are_found_by_id(rest, id, i - 1);
    }
}

/// The instruction of a preset is that of the first that bears its id, and there is none
/// where none does.
pub proof fn law_presets_are_found_by_id(presets: Seq<TonePreset>, id: Seq<char>, i: int)
    requires
        0 <= i <= presets.len(),
        forall|j: int| 0 <= j < i ==> (#[trigger] presets[j]).id@ != id,
        i < presets.len() ==> presets[i].id@ == id,
    ensures
        preset_instruction(presets, id) == (if i < presets.len() {
            Some(presets[i].instruction@)
        } else {
            None
        }),
    decreases presets.len(),
{
    if presets.len() > 0 && i > 0 {
        let rest = presets.drop_first();
        assert(presets[0].id@ != id);
        assert forall|j: int| 0 <= j < i - 1 implies (#[trigger] rest[j]).id@ != id by {
            assert(rest[j] == presets[j + 1]);
        }
        law_presets_are_found_by_id(rest, id, i - 1);
    }
}

/// The provider in use is looked up by the id in use, and the selected prompt by the
/// selected id; without a selected id no prompt is selected.
pub proof fn law_selections_are_looked_up(settings: AppSettings)
    ensures
        settings.active_provider() == provider_with_id(
            settings.post_process_providers@,
            settings.post_process_provider_id@,
        ),
        settings.post_process_selected_prompt_id matches Some(id) ==> settings.selected_prompt()
            == prompt_with_id(settings.post_process_prompts@, id@),
        settings.post_process_selected_prompt_id is None ==> settings.selected_prompt() is None,
{
}

} // verus!
