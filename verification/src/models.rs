//! Local cleanup models: the curated catalog, the machine they run on, and the
//! Ollama server that holds them.

use crate::app_context;
use crate::settings;
use crate::settings::{AppSettings, CUSTOM_PROVIDER_ID};
use crate::text;
use vstd::prelude::*;
use vstd::slice::slice_subrange;

verus! {

/// Hardware that decides which model fits the machine.
#[derive(Clone, Debug)]
pub struct SystemCapability {
    /// Memory of the largest GPU in MB, zero where there is none.
    pub vram_mb: usize,
    /// Memory of the machine in MB.
    pub ram_mb: usize,
    pub has_gpu: bool,
}

/// A curated cleanup model.
#[derive(Clone, Debug)]
pub struct PostProcessCatalogModel {
    /// Ollama tag, which is also the value stored in the settings.
    pub id: String,
    pub name: String,
    pub params: String,
    pub description: String,
    pub size_mb: usize,
    /// GPU memory needed to run comfortably, in MB.
    pub vram_need_mb: usize,
    /// From 0 to 100, higher is faster.
    pub speed_score: u32,
    /// From 0 to 100, higher is more accurate.
    pub accuracy_score: u32,
    /// Whether the local server holds the model.
    pub is_installed: bool,
}

/// The view of a `PostProcessCatalogModel`.
pub struct CatalogRow {
    pub id: Seq<char>,
    pub name: Seq<char>,
    pub params: Seq<char>,
    pub description: Seq<char>,
    pub size_mb: usize,
    pub vram_need_mb: usize,
    pub speed_score: u32,
    pub accuracy_score: u32,
    pub is_installed: bool,
}

impl View for PostProcessCatalogModel {
    type V = CatalogRow;

    open spec fn view(&self) -> CatalogRow {
        CatalogRow {
            id: self.id@,
            name: self.name@,
            params: self.params@,
            description: self.description@,
            size_mb: self.size_mb,
            vram_need_mb: self.vram_need_mb,
            speed_score: self.speed_score,
            accuracy_score: self.accuracy_score,
            is_installed: self.is_installed,
        }
    }
}

/// The rows that a list of models stands for.
pub open spec fn rows_of(models: Seq<PostProcessCatalogModel>) -> Seq<CatalogRow> {
    models.map_values(|m: PostProcessCatalogModel| m@)
}

/// A row of the catalog, not installed.
pub open spec fn row(
    id: Seq<char>,
    name: Seq<char>,
    params: Seq<char>,
    description: Seq<char>,
    size_mb: usize,
    vram_need_mb: usize,
    speed_score: u32,
    accuracy_score: u32,
) -> CatalogRow {
    CatalogRow {
        id,
        name,
        params,
        description,
        size_mb,
        vram_need_mb,
        speed_score,
        accuracy_score,
        is_installed: false,
    }
}

/// The curated models, from fast to accurate.
pub open spec fn catalog_rows() -> Seq<CatalogRow> {
    seq![
        row(
            "gemma2:2b"@,
            "Gemma 2 2B"@,
            "2B"@,
            "Tiny and near-instant. Great when speed matters most."@,
            1600,
            3000,
            98,
            70,
        ),
        row(
            "qwen2.5:3b"@,
            "Qwen 2.5 3B"@,
            "3B"@,
            "Fast, faithful cleanup with terse output. Best all-round pick for dictation."@,
            1900,
            4000,
            95,
            80,
        ),
        row(
            "llama3.2:3b"@,
            "Llama 3.2 3B"@,
            "3B"@,
            "Fast and capable; slightly chattier than Qwen 2.5."@,
            2000,
            4000,
            92,
            77,
        ),
        row(
            "qwen2.5:7b"@,
            "Qwen 2.5 7B"@,
            "7B"@,
            "Balanced quality and speed for richer rewrites."@,
            4700,
            8000,
            80,
            87,
        ),
        row(
            "llama3.1:8b"@,
            "Llama 3.1 8B"@,
            "8B"@,
            "Strong general model; good tone control."@,
            4900,
            10000,
            74,
            88,
        ),
        row(
            "qwen2.5:14b"@,
            "Qwen 2.5 14B"@,
            "14B"@,
            "High accuracy for demanding cleanup and formatting."@,
            9000,
            16000,
            55,
            93,
        ),
        row(
            "qwen2.5:32b"@,
            "Qwen 2.5 32B"@,
            "32B"@,
            "Most accurate; needs a large GPU."@,
            20000,
            24000,
            35,
            97,
        ),
    ]
}

fn entry(
    id: &str,
    name: &str,
    params: &str,
    description: &str,
    size_mb: usize,
    vram_need_mb: usize,
    speed_score: u32,
    accuracy_score: u32,
) -> (r: PostProcessCatalogModel)
    ensures
        r@ == row(
            id@,
            name@,
            params@,
            description@,
            size_mb,
            vram_need_mb,
            speed_score,
            accuracy_score,
        ),
{
    PostProcessCatalogModel {
        id: id.to_string(),
        name: name.to_string(),
        params: params.to_string(),
        description: description.to_string(),
        size_mb,
        vram_need_mb,
        speed_score,
        accuracy_score,
        is_installed: false,
    }
}

/// The curated models, none of them marked as installed.
pub fn catalog() -> (r: Vec<PostProcessCatalogModel>)
    ensures
        rows_of(r@) == catalog_rows(),
{
    let models = vec![
        entry(
            "gemma2:2b",
            "Gemma 2 2B",
            "2B",
            "Tiny and near-instant. Great when speed matters most.",
            1600,
            3000,
            98,
            70,
        ),
        entry(
            "qwen2.5:3b",
            "Qwen 2.5 3B",
            "3B",
            "Fast, faithful cleanup with terse output. Best all-round pick for dictation.",
            1900,
            4000,
            95,
            80,
        ),
        entry(
            "llama3.2:3b",
            "Llama 3.2 3B",
            "3B",
            "Fast and capable; slightly chattier than Qwen 2.5.",
            2000,
            4000,
            92,
            77,
        ),
        entry(
            "qwen2.5:7b",
            "Qwen 2.5 7B",
            "7B",
            "Balanced quality and speed for richer rewrites.",
            4700,
            8000,
            80,
            87,
        ),
        entry(
            "llama3.1:8b",
            "Llama 3.1 8B",
            "8B",
            "Strong general model; good tone control.",
            4900,
            10000,
            74,
            88,
        ),
        entry(
            "qwen2.5:14b",
            "Qwen 2.5 14B",
            "14B",
            "High accuracy for demanding cleanup and formatting.",
            9000,
            16000,
            55,
            93,
        ),
        entry(
            "qwen2.5:32b",
            "Qwen 2.5 32B",
            "32B",
            "Most accurate; needs a large GPU.",
            20000,
            24000,
            35,
            97,
        ),
    ];
    assert(rows_of(models@) =~= catalog_rows());
    models
}

/// Bytes in a megabyte of memory.
pub const BYTES_PER_MB: u64 = 1_048_576;

/// The memory of the machine in MB, given its bytes where they are known.
pub fn total_ram_mb(total_bytes: Option<u64>) -> (r: usize)
    ensures
        r == (match total_bytes {
            Some(bytes) => (bytes / BYTES_PER_MB) as usize,
            None => 0,
        }),
{
    match total_bytes {
        Some(bytes) => (bytes / BYTES_PER_MB) as usize,
        None => 0,
    }
}

pub const VRAM_ERROR: &'static str = "VRAM query failed: ";

/// The capability of the machine, given its largest GPU memory, or why that is
/// not known, and its memory in bytes.
pub fn get_system_capability(vram_mb: Result<usize, String>, total_bytes: Option<u64>) -> (r:
    Result<SystemCapability, String>)
    ensures
        match (vram_mb, r) {
            (Ok(vram), Ok(found)) => {
                &&& found.vram_mb == vram
                &&& found.has_gpu == (vram > 0)
                &&& found.ram_mb == (match total_bytes {
                    Some(bytes) => (bytes / BYTES_PER_MB) as usize,
                    None => 0,
                })
            },
            (Err(e), Err(message)) => message@ == VRAM_ERROR@ + e@,
            _ => false,
        },
{
    match vram_mb {
        Ok(vram) => Ok(
            SystemCapability {
                vram_mb: vram,
                ram_mb: total_ram_mb(total_bytes),
                has_gpu: vram > 0,
            },
        ),
        Err(e) => {
            let mut message = VRAM_ERROR.to_string();
            message.append(e.as_str());
            Err(message)
        },
    }
}

/// A text without trailing slashes.
pub open spec fn without_slashes(s: Seq<char>) -> Seq<char>
    decreases s.len(),
{
    if s.len() > 0 && s.last() == '/' {
        without_slashes(s.drop_last())
    } else {
        s
    }
}

/// The path under which an OpenAI-compatible interface is served.
pub const OPENAI_PATH: &'static str = "/v1";

/// The root of the server behind an OpenAI-compatible base address.
pub open spec fn server_root(base_url: Seq<char>) -> Seq<char> {
    let base = without_slashes(base_url);
    if text::ends_with(base, OPENAI_PATH@) {
        base.take(base.len() - OPENAI_PATH@.len())
    } else {
        base
    }
}

/// How many dots a text holds.
pub open spec fn dots(s: Seq<char>) -> nat
    decreases s.len(),
{
    if s.len() == 0 {
        0
    } else {
        dots(s.drop_last()) + (if s.last() == '.' {
            1nat
        } else {
            0nat
        })
    }
}

/// Whether a host is an IPv4 address of the loopback network: four numbers, the first
/// of them 127.
pub open spec fn loopback_v4(host: Seq<char>) -> bool {
    &&& host.len() >= 4 && host.take(4) == "127."@
    &&& dots(host) == 3
    &&& forall|i: int|
        0 <= i < host.len() ==> ('0' <= #[trigger] host[i] && host[i] <= '9') || host[i] == '.'
    &&& forall|i: int|
        0 <= i < host.len() && #[trigger] host[i] == '.' ==> i + 1 < host.len() && host[i + 1]
            != '.'
}

/// The IPv6 loopback address as it stands in an address.
pub const LOOPBACK_V6: &'static str = "[::1]";

/// Whether a host, with or without a port, is this machine: `localhost` or a loopback
/// address.
pub open spec fn loopback(host_and_port: Seq<char>) -> bool {
    let host = text::before_marks(host_and_port, seq![':']);
    ||| text::ascii_lowered(host) == "localhost"@
    ||| loopback_v4(host)
    ||| host_and_port.len() >= 5 && host_and_port.take(5) == LOOPBACK_V6@ && (host_and_port.len()
        == 5 || host_and_port[5] == ':')
}

/// Whether the root of a server is on this machine.
pub open spec fn local_endpoint(root: Seq<char>) -> bool {
    loopback(app_context::host_and_port_in(root))
}

/// The root of the local server: the one behind the custom provider, where there is
/// such a provider and it is on this machine.
pub open spec fn local_root(settings: AppSettings) -> Option<Seq<char>> {
    match settings::provider_with_id(settings.post_process_providers@, CUSTOM_PROVIDER_ID@) {
        Some(provider) => {
            let root = server_root(provider.base_url@);
            if local_endpoint(root) {
                Some(root)
            } else {
                None
            }
        },
        None => None,
    }
}

fn is_localhost(host: &[char]) -> (r: bool)
    ensures
        r == (text::ascii_lowered(host@) == "localhost"@),
{
    let name = text::chars_of("localhost");
    let ghost lower = text::ascii_lowered(host@);
    let n: usize = host.len();
    if n != name.len() {
        return false;
    }
    let mut i: usize = 0;
    while i < n
        invariant
            i <= n,
            n == host@.len() == name@.len(),
            name@ == "localhost"@,
            lower == text::ascii_lowered(host@),
            forall|j: int| 0 <= j < i ==> #[trigger] lower[j] == name@[j],
        decreases n - i,
    {
        assert(lower[i as int] == text::ascii_lower(host@[i as int]));
        if text::to_ascii_lower(host[i]) != name[i] {
            return false;
        }
        i = i + 1;
    }
    assert(lower =~= name@);
    true
}

fn is_loopback_v4(host: &[char]) -> (r: bool)
    ensures
        r == loopback_v4(host@),
{
    let n: usize = host.len();
    let net = text::chars_of("127.");
    proof {
        reveal_strlit("127.");
    }
    if n < 4 {
        return false;
    }
    assert(host@.subrange(0, 4) =~= host@.take(4));
    if !text::same_chars(slice_subrange(host, 0, 4), net.as_slice()) {
        return false;
    }
    let mut count: usize = 0;
    let mut i: usize = 0;
    assert(host@.take(0) =~= Seq::<char>::empty());
    while i < n
        invariant
            i <= n,
            n == host@.len(),
            count <= i,
            count == dots(host@.take(i as int)),
            forall|j: int|
                0 <= j < i ==> ('0' <= #[trigger] host@[j] && host@[j] <= '9') || host@[j] == '.',
            forall|j: int|
                0 <= j < i && #[trigger] host@[j] == '.' ==> j + 1 < n && host@[j + 1] != '.',
        decreases n - i,
    {
        let c = host[i];
        assert(host@.take(i + 1).drop_last() =~= host@.take(i as int));
        assert(host@.take(i + 1).last() == c);
        if c == '.' {
            if i + 1 >= n || host[i + 1] == '.' {
                return false;
            }
            count = count + 1;
        } else if c < '0' || c > '9' {
            return false;
        }
        i = i + 1;
    }
    assert(host@.take(n as int) =~= host@);
    count == 3
}

/// Whether a host, with or without a port, is this machine.
pub fn is_loopback(host_and_port: &[char]) -> (r: bool)
    ensures
        r == loopback(host_and_port@),
{
    let port_mark: Vec<char> = vec![':'];
    assert(port_mark@ =~= seq![':']);
    let host = text::before_any(host_and_port, port_mark.as_slice());
    if is_localhost(host) || is_loopback_v4(host) {
        return true;
    }
    let v6 = text::chars_of(LOOPBACK_V6);
    let n: usize = host_and_port.len();
    if n < 5 {
        return false;
    }
    assert(host_and_port@.subrange(0, 5) =~= host_and_port@.take(5));
    text::same_chars(slice_subrange(host_and_port, 0, 5), v6.as_slice()) && (n == 5
        || host_and_port[5] == ':')
}

/// The root of the server behind an OpenAI-compatible base address.
pub fn find_server_root(base_url: &str) -> (r: Vec<char>)
    ensures
        r@ == server_root(base_url@),
{
    let mut chars = text::chars_of(base_url);
    let ghost whole = chars@;
    while chars.len() > 0 && chars[chars.len() - 1] == '/'
        invariant
            without_slashes(whole) == without_slashes(chars@),
        decreases chars@.len(),
    {
        let ghost before = chars@;
        chars.truncate(chars.len() - 1);
        assert(chars@ =~= before.drop_last());
    }
    assert(chars@ == without_slashes(whole));
    let path = text::chars_of(OPENAI_PATH);
    if text::ends_with_chars(chars.as_slice(), path.as_slice()) {
        let ghost base = chars@;
        let end: usize = chars.len() - path.len();
        chars.truncate(end);
        assert(chars@ =~= base.take(end as int));
    }
    chars
}

/// The base address of the local Ollama server: the root behind the custom provider,
/// where there is such a provider and it is on this machine.
pub fn ollama_base_url(settings: &AppSettings) -> (r: Option<String>)
    ensures
        text::opt_text(r) == local_root(*settings),
{
    match settings.post_process_provider(CUSTOM_PROVIDER_ID) {
        Some(provider) => {
            let root = find_server_root(provider.base_url.as_str());
            if is_loopback(app_context::find_host_and_port(root.as_slice())) {
                Some(text::string_of(root.as_slice()))
            } else {
                None
            }
        },
        None => None,
    }
}

/// The tag under which Ollama may also report a model: its family, latest.
pub open spec fn latest_alias(id: Seq<char>) -> Seq<char> {
    text::before_marks(id, seq![':']) + ":latest"@
}

/// Whether a list of installed tags holds a model.
pub open spec fn installed_in(id: Seq<char>, installed: Seq<String>) -> bool {
    exists|i: int|
        0 <= i < installed.len() && ((#[trigger] installed[i])@ == id || installed[i]@
            == latest_alias(id))
}

fn holds_model(id: &str, installed: &Vec<String>) -> (r: bool)
    ensures
        r == installed_in(id@, installed@),
{
    let chars = text::chars_of(id);
    let marks: Vec<char> = vec![':'];
    assert(marks@ =~= seq![':']);
    let mut alias = text::string_of(text::before_any(chars.as_slice(), marks.as_slice()));
    alias.append(":latest");
    for i in 0..installed.len()
        invariant
            alias@ == latest_alias(id@),
            forall|j: int|
                0 <= j < i ==> (#[trigger] installed@[j])@ != id@ && installed@[j]@ != latest_alias(
                    id@,
                ),
    {
        let tag = installed[i].as_str();
        if text::same_text(tag, id) || text::same_text(tag, alias.as_str()) {
            assert(installed@[i as int]@ == id@ || installed@[i as int]@ == latest_alias(id@));
            return true;
        }
    }
    false
}

/// A row marked by what the local server holds.
pub open spec fn marked_row(row: CatalogRow, installed: Seq<String>) -> CatalogRow {
    CatalogRow { is_installed: installed_in(row.id, installed), ..row }
}

/// The catalog, marked by the tags that the local server holds; unmarked where
/// there is no such server.
pub fn get_post_process_model_catalog(installed: Option<&Vec<String>>) -> (r: Vec<
    PostProcessCatalogModel,
>)
    ensures
        rows_of(r@) == (match installed {
            Some(tags) => catalog_rows().map_values(|m: CatalogRow| marked_row(m, tags@)),
            None => catalog_rows(),
        }),
{
    let models = catalog();
    let tags = match installed {
        Some(t) => t,
        None => {
            return models;
        },
    };
    let mut out: Vec<PostProcessCatalogModel> = Vec::new();
    let ghost rows = rows_of(models@);
    for m in it: models.into_iter()
        invariant
            rows == rows_of(it.seq()),
            rows_of(out@) == rows.take(it.index()).map_values(
                |m: CatalogRow| marked_row(m, tags@),
            ),
    {
        let ghost before = out@;
        let is_installed = holds_model(m.id.as_str(), tags);
        let marked = PostProcessCatalogModel {
            id: m.id,
            name: m.name,
            params: m.params,
            description: m.description,
            size_mb: m.size_mb,
            vram_need_mb: m.vram_need_mb,
            speed_score: m.speed_score,
            accuracy_score: m.accuracy_score,
            is_installed,
        };
        out.push(marked);
        proof {
            let n = it.index();
            assert(rows[n] == m@);
            assert(marked@ == marked_row(m@, tags@));
            assert(rows.take(n + 1) =~= rows.take(n).push(m@));
            assert(rows_of(out@) =~= rows_of(before).push(marked@));
            assert(rows.take(n + 1).map_values(|m: CatalogRow| marked_row(m, tags@))
                =~= rows.take(n).map_values(|m: CatalogRow| marked_row(m, tags@)).push(
                marked_row(m@, tags@),
            ));
        }
    }
    assert(rows.take(rows.len() as int) =~= rows);
    out
}

/// Where Ollama lists the models it holds.
pub const TAGS_PATH: &'static str = "/api/tags";

/// Where Ollama pulls models.
pub const PULL_PATH: &'static str = "/api/pull";

/// Where Ollama deletes models.
pub const DELETE_PATH: &'static str = "/api/delete";

/// The error where there is no server to manage models on.
pub const NO_SERVER: &'static str = "Post-processing provider is not a local Ollama server";

/// A path on a server.
#[derive(Debug)]
pub struct Endpoint {
    /// The root of the server.
    pub base: String,
    /// The address of the path.
    pub url: String,
}

fn endpoint_at(base: String, path: &str) -> (r: Endpoint)
    ensures
        r.base == base,
        r.url@ == base@ + path@,
{
    let mut url = base.clone();
    url.append(path);
    Endpoint { base, url }
}

/// Whether an endpoint is a path on the server with the given root.
pub open spec fn endpoint_is(endpoint: Endpoint, root: Seq<char>, path: Seq<char>) -> bool {
    endpoint.base@ == root && endpoint.url@ == root + path
}

/// Where to ask which models the local server holds.
pub fn tags_endpoint(settings: &AppSettings) -> (r: Option<Endpoint>)
    ensures
        match (r, local_root(*settings)) {
            (Some(endpoint), Some(root)) => endpoint_is(endpoint, root, TAGS_PATH@),
            (None, None) => true,
            _ => false,
        },
{
    match ollama_base_url(settings) {
        Some(base) => Some(endpoint_at(base, TAGS_PATH)),
        None => None,
    }
}

/// Where to pull a model from.
pub fn pull_endpoint(settings: &AppSettings) -> (r: Result<Endpoint, String>)
    ensures
        match (r, local_root(*settings)) {
            (Ok(endpoint), Some(root)) => endpoint_is(endpoint, root, PULL_PATH@),
            (Err(error), None) => error@ == NO_SERVER@,
            _ => false,
        },
{
    match ollama_base_url(settings) {
        Some(base) => Ok(endpoint_at(base, PULL_PATH)),
        None => Err(NO_SERVER.to_string()),
    }
}

/// Where to delete a model.
pub fn delete_endpoint(settings: &AppSettings) -> (r: Result<Endpoint, String>)
    ensures
        match (r, local_root(*settings)) {
            (Ok(endpoint), Some(root)) => endpoint_is(endpoint, root, DELETE_PATH@),
            (Err(error), None) => error@ == NO_SERVER@,
            _ => false,
        },
{
    match ollama_base_url(settings) {
        Some(base) => Ok(endpoint_at(base, DELETE_PATH)),
        None => Err(NO_SERVER.to_string()),
    }
}

/// What came of the request to delete a model.
#[derive(Debug)]
pub enum DeleteAnswer {
    /// The server was not reached.
    Unreachable { detail: String },
    /// The server answered with a status, which may be a success.
    Answered { success: bool, status: String },
}

/// Whether a model was deleted, or why not.
pub fn delete_post_process_model(answer: &DeleteAnswer) -> (r: Result<(), String>)
    ensures
        match *answer {
            DeleteAnswer::Unreachable { detail } => r matches Err(message) && message@
                == "Failed to reach Ollama: "@ + detail@,
            DeleteAnswer::Answered { success, status } => if success {
                r is Ok
            } else {
                r matches Err(message) && message@ == "Ollama returned "@ + status@
            },
        },
{
    match answer {
        DeleteAnswer::Unreachable { detail } => {
            let mut message = "Failed to reach Ollama: ".to_string();
            message.append(detail.as_str());
            Err(message)
        },
        DeleteAnswer::Answered { success, status } => {
            if *success {
                return Ok(());
            }
            let mut message = "Ollama returned ".to_string();
            message.append(status.as_str());
            Err(message)
        },
    }
}

/// Marking the catalog changes nothing but the marks, and a model is marked
/// exactly where its tag or its family's latest tag is installed.
pub proof fn law_marking_keeps_the_catalog(installed: Seq<String>, i: int)
    requires
        0 <= i < catalog_rows().len(),
    ensures
        ({
            let marked = catalog_rows().map_values(|m: CatalogRow| marked_row(m, installed));
            let before = catalog_rows()[i];
            &&& marked.len() == catalog_rows().len()
            &&& marked[i] == (CatalogRow { is_installed: marked[i].is_installed, ..before })
            &&& marked[i].is_installed <==> installed_in(before.id, installed)
        }),
{
}

/// Trailing slashes do not change the server root.
pub proof fn law_trailing_slashes_do_not_matter(base_url: Seq<char>)
    ensures
        server_root(base_url.push('/')) == server_root(base_url),
{
    assert(base_url.push('/').drop_last() =~= base_url);
}

/// The OpenAI path is not part of the server root.
pub proof fn law_openai_path_is_cut(root: Seq<char>)
    ensures
        server_root(root + OPENAI_PATH@) == root,
{
    reveal_strlit("/v1");
    let full = root + OPENAI_PATH@;
    assert(full.last() == '1');
    assert(full.skip(root.len() as int) =~= OPENAI_PATH@);
    assert(full.take(root.len() as int) =~= root);
}

/// Whether a server is local is decided by its host alone: not by the scheme, a user
/// name, or anything from the path on.
pub proof fn law_the_host_decides_what_is_local(
    scheme: Seq<char>,
    authority: Seq<char>,
    tail: Seq<char>,
)
    requires
        !scheme.contains(':') && !app_context::holds_path_mark(scheme),
        !app_context::holds_path_mark(authority),
        app_context::starts_tail(tail),
    ensures
        local_endpoint(scheme + "://"@ + authority + tail) == loopback(
            text::after_last(authority, '@'),
        ),
{
    app_context::law_authority_gives_host_and_port(scheme, authority, tail);
}

/// Every model of the catalog has its own tag and scores from 0 to 100, and the
/// models run from fast to slow.
pub proof fn law_catalog_is_in_order(i: int, j: int)
    requires
        0 <= i < j < catalog_rows().len(),
    ensures
        catalog_rows()[i].id != catalog_rows()[j].id,
        catalog_rows()[i].speed_score > catalog_rows()[j].speed_score,
        catalog_rows()[i].speed_score <= 100 && catalog_rows()[i].accuracy_score <= 100,
        catalog_rows()[j].speed_score <= 100 && catalog_rows()[j].accuracy_score <= 100,
{
    reveal_strlit("gemma2:2b");
    reveal_strlit("qwen2.5:3b");
    reveal_strlit("llama3.2:3b");
    reveal_strlit("qwen2.5:7b");
    reveal_strlit("llama3.1:8b");
    reveal_strlit("qwen2.5:14b");
    reveal_strlit("qwen2.5:32b");
    let rows = catalog_rows();
    assert(rows[0].id[0] == 'g');
    assert(rows[1].id.len() == 10 && rows[1].id[8] == '3');
    assert(rows[2].id[0] == 'l' && rows[2].id[7] == '2');
    assert(rows[3].id.len() == 10 && rows[3].id[8] == '7');
    assert(rows[4].id[0] == 'l' && rows[4].id[7] == '1');
    assert(rows[5].id.len() == 11 && rows[5].id[0] == 'q' && rows[5].id[8] == '1');
    assert(rows[6].id.len() == 11 && rows[6].id[0] == 'q' && rows[6].id[8] == '3');
    assert(rows[1].id[0] == 'q' && rows[3].id[0] == 'q');
}

/// The catalog holds seven models, none of them installed, each with the download size,
/// the GPU memory and the scores that it is listed with.
pub proof fn law_the_catalog_lists_seven_models()
    ensures
        catalog_rows().len() == 7,
        catalog_rows().map_values(|m: CatalogRow| m.id) == seq![
            "gemma2:2b"@,
            "qwen2.5:3b"@,
            "llama3.2:3b"@,
            "qwen2.5:7b"@,
            "llama3.1:8b"@,
            "qwen2.5:14b"@,
            "qwen2.5:32b"@,
        ],
        catalog_rows().map_values(|m: CatalogRow| m.name) == seq![
            "Gemma 2 2B"@,
            "Qwen 2.5 3B"@,
            "Llama 3.2 3B"@,
            "Qwen 2.5 7B"@,
            "Llama 3.1 8B"@,
            "Qwen 2.5 14B"@,
            "Qwen 2.5 32B"@,
        ],
        catalog_rows().map_values(|m: CatalogRow| m.params) == seq![
            "2B"@,
            "3B"@,
            "3B"@,
            "7B"@,
            "8B"@,
            "14B"@,
            "32B"@,
        ],
        catalog_rows().map_values(|m: CatalogRow| m.description) == seq![
            "Tiny and near-instant. Great when speed matters most."@,
            "Fast, faithful cleanup with terse output. Best all-round pick for dictation."@,
            "Fast and capable; slightly chattier than Qwen 2.5."@,
            "Balanced quality and speed for richer rewrites."@,
            "Strong general model; good tone control."@,
            "High accuracy for demanding cleanup and formatting."@,
            "Most accurate; needs a large GPU."@,
        ],
        catalog_rows().map_values(|m: CatalogRow| m.size_mb) == seq![
            1600usize,
            1900,
            2000,
            4700,
            4900,
            9000,
            20000,
        ],
        catalog_rows().map_values(|m: CatalogRow| m.vram_need_mb) == seq![
            3000usize,
            4000,
            4000,
            8000,
            10000,
            16000,
            24000,
        ],
        catalog_rows().map_values(|m: CatalogRow| m.speed_score) == seq![
            98u32,
            95,
            92,
            80,
            74,
            55,
            35,
        ],
        catalog_rows().map_values(|m: CatalogRow| m.accuracy_score) == seq![
            70u32,
            80,
            77,
            87,
            88,
            93,
            97,
        ],
        forall|i: int| 0 <= i < 7 ==> !(#[trigger] catalog_rows()[i]).is_installed,
{
}

/// A base address that ends neither with a slash nor with the OpenAI path is the server
/// root itself.
pub proof fn law_plain_addresses_are_the_root(base_url: Seq<char>)
    requires
        base_url.len() > 0 ==> base_url.last() != '/',
        base_url.len() < 3 || base_url.skip(base_url.len() - 3) != "/v1"@,
    ensures
        server_root(base_url) == base_url,
{
    reveal_strlit("/v1");
}

/// The local server is the one behind the provider `custom`, at its root, where that is on
/// this machine; any other provider is out of the question.
pub proof fn law_the_custom_provider_is_the_local_server(settings: AppSettings)
    ensures
        ({
            let found = settings::provider_with_id(settings.post_process_providers@, "custom"@);
            &&& found is None ==> local_root(settings) is None
            &&& found matches Some(provider) ==> {
                let root = server_root(provider.base_url@);
                &&& loopback(app_context::host_and_port_in(root)) ==> local_root(settings) == Some(
                    root,
                )
                &&& !loopback(app_context::host_and_port_in(root)) ==> local_root(settings) is None
            }
        }),
{
}

proof fn lemma_dots_join(a: Seq<char>, b: Seq<char>)
    ensures
        dots(a + b) == dots(a) + dots(b),
    decreases b.len(),
{
    if b.len() == 0 {
        assert(a + b =~= a);
    } else {
        assert((a + b).drop_last() =~= a + b.drop_last());
        assert((a + b).last() == b.last());
        lemma_dots_join(a, b.drop_last());
    }
}

proof fn lemma_no_dots(s: Seq<char>)
    requires
        forall|i: int| 0 <= i < s.len() ==> #[trigger] s[i] != '.',
    ensures
        dots(s) == 0,
    decreases s.len(),
{
    if s.len() > 0 {
        let front = s.drop_last();
        assert forall|i: int| 0 <= i < front.len() implies #[trigger] front[i] != '.' by {
            assert(front[i] == s[i]);
        }
        lemma_no_dots(front);
        assert(s[s.len() - 1] != '.');
    }
}

/// Whether a text is a number: digits, and at least one.
pub open spec fn number(s: Seq<char>) -> bool {
    s.len() > 0 && forall|i: int| 0 <= i < s.len() ==> '0' <= #[trigger] s[i] && s[i] <= '9'
}

/// Every address of the network 127 is this machine, with or without a port.
pub proof fn law_the_loopback_network_is_local(
    b: Seq<char>,
    c: Seq<char>,
    d: Seq<char>,
    port: Seq<char>,
)
    requires
        number(b) && number(c) && number(d),
    ensures
        loopback("127."@ + b + seq!['.'] + c + seq!['.'] + d),
        loopback("127."@ + b + seq!['.'] + c + seq!['.'] + d + seq![':'] + port),
{
    reveal_strlit("127.");
    let host = "127."@ + b + seq!['.'] + c + seq!['.'] + d;
    let dot = seq!['.'];
    assert(host.take(4) =~= "127."@);
    assert(dots(dot) == 1) by {
        reveal_with_fuel(dots, 2);
        assert(dot.drop_last() =~= Seq::<char>::empty());
    }
    let net = seq!['1', '2', '7'];
    assert forall|i: int| 0 <= i < net.len() implies #[trigger] net[i] != '.' by {}
    lemma_no_dots(net);
    assert(net + dot =~= "127."@);
    lemma_dots_join(net, dot);
    lemma_no_dots(b);
    lemma_no_dots(c);
    lemma_no_dots(d);
    lemma_dots_join("127."@, b);
    lemma_dots_join("127."@ + b, dot);
    lemma_dots_join("127."@ + b + dot, c);
    lemma_dots_join("127."@ + b + dot + c, dot);
    lemma_dots_join("127."@ + b + dot + c + dot, d);
    let nb = b.len() as int;
    let nc = c.len() as int;
    assert forall|i: int| 0 <= i < host.len() implies ('0' <= #[trigger] host[i] && host[i] <= '9')
        || host[i] == '.' by {
        if i < 4 {
            assert(host[i] == "127."@[i]);
        } else if i < 4 + nb {
            assert(host[i] == b[i - 4]);
        } else if i == 4 + nb {
        } else if i < 5 + nb + nc {
            assert(host[i] == c[i - 5 - nb]);
        } else if i == 5 + nb + nc {
        } else {
            assert(host[i] == d[i - 6 - nb - nc]);
        }
    }
    assert forall|i: int| 0 <= i < host.len() && #[trigger] host[i] == '.' implies i + 1
        < host.len() && host[i + 1] != '.' by {
        if i < 4 {
            assert(host[i] == "127."@[i]);
            assert(host[4] == b[0]);
        } else if i < 4 + nb {
            assert(host[i] == b[i - 4]);
        } else if i == 4 + nb {
            assert(host[i + 1] == c[0]);
        } else if i < 5 + nb + nc {
            assert(host[i] == c[i - 5 - nb]);
        } else if i == 5 + nb + nc {
            assert(host[i + 1] == d[0]);
        } else {
            assert(host[i] == d[i - 6 - nb - nc]);
        }
    }
    assert(loopback_v4(host));
    lemma_port_is_cut(host, Seq::empty());
    assert(host + Seq::<char>::empty() =~= host);
    lemma_port_is_cut(host, seq![':'] + port);
    assert(host + (seq![':'] + port) =~= host + seq![':'] + port);
}

proof fn lemma_port_is_cut(host: Seq<char>, port: Seq<char>)
    requires
        forall|i: int| 0 <= i < host.len() ==> #[trigger] host[i] != ':',
        port.len() > 0 ==> port[0] == ':',
    ensures
        text::before_marks(host + port, seq![':']) == host,
{
    let mark = seq![':'];
    let s = host + port;
    assert(mark[0] == ':');
    assert forall|i: int| 0 <= i < host.len() implies !mark.contains(#[trigger] s[i]) by {
        assert(s[i] == host[i]);
    }
    if port.len() > 0 {
        assert(s[host.len() as int] == ':');
    }
    text::lemma_before_first_is(s, |c: char| mark.contains(c), host.len() as int);
    assert(s.take(host.len() as int) =~= host);
}

/// The name `localhost`, in any case, is this machine, with or without a port. Any other
/// host without a colon is so only where it starts with `127.` and is made of four numbers
/// with dots between them.
pub proof fn law_localhost_is_local(host: Seq<char>, port: Seq<char>)
    requires
        forall|i: int| 0 <= i < host.len() ==> #[trigger] host[i] != ':' && host[i] != '[',
        port.len() > 0 ==> port[0] == ':',
    ensures
        text::ascii_lowered(host) == "localhost"@ ==> loopback(host + port),
        text::ascii_lowered(host) != "localhost"@ && loopback(host + port) ==> {
            &&& host.len() >= 7
            &&& host[0] == '1' && host[1] == '2' && host[2] == '7' && host[3] == '.'
            &&& dots(host) == 3
            &&& forall|i: int|
                0 <= i < host.len() ==> ('0' <= #[trigger] host[i] && host[i] <= '9') || host[i]
                    == '.'
            &&& forall|i: int|
                0 <= i < host.len() && #[trigger] host[i] == '.' ==> i + 1 < host.len() && host[i
                    + 1] != '.'
        },
{
    lemma_port_is_cut(host, port);
    reveal_strlit("127.");
    reveal_strlit("[::1]");
    let s = host + port;
    if s.len() >= 5 && s.take(5) == LOOPBACK_V6@ {
        assert(s.take(5)[0] == s[0]);
        if host.len() == 0 {
            assert(s[0] == port[0]);
        }
    }
    if loopback_v4(host) {
        assert(host.take(4)[0] == host[0] && host.take(4)[1] == host[1] && host.take(4)[2]
            == host[2] && host.take(4)[3] == host[3]);
        if host.len() < 7 {
            lemma_few_dots(host);
        }
    }
}

proof fn lemma_few_dots(host: Seq<char>)
    requires
        loopback_v4(host),
        4 <= host.len() < 7,
    ensures
        dots(host) < 3,
{
    reveal_strlit("127.");
    let n = host.len() as int;
    assert(host.take(4)[0] == host[0] && host.take(4)[1] == host[1] && host.take(4)[2] == host[2]
        && host.take(4)[3] == host[3]);
    assert(host[3] == '.');
    assert(host[4] != '.');
    assert(host[n - 1] != '.');
    let net = seq!['1', '2', '7'];
    assert forall|i: int| 0 <= i < net.len() implies #[trigger] net[i] != '.' by {}
    lemma_no_dots(net);
    assert(host =~= net + host.skip(3));
    lemma_dots_join(net, host.skip(3));
    let rest = host.skip(3);
    reveal_with_fuel(dots, 4);
    assert(rest.drop_last().drop_last().len() <= 2);
    if n == 5 {
        assert(rest.last() == host[4]);
        assert(rest.drop_last() =~= seq!['.']);
    } else {
        assert(n == 6);
        assert(rest.last() == host[5]);
        assert(rest.drop_last().last() == host[4]);
        assert(rest.drop_last().drop_last() =~= seq!['.']);
    }
    assert(seq!['.'].drop_last() =~= Seq::<char>::empty());
    assert(dots(seq!['.']) == 1);
}

/// The IPv6 loopback address is this machine, with or without a port, and no other text in
/// square brackets is.
pub proof fn law_bracketed_addresses(inner: Seq<char>, port: Seq<char>)
    requires
        !inner.contains(']'),
        port.len() > 0 ==> port[0] == ':',
    ensures
        loopback(seq!['['] + inner + seq![']'] + port) <==> inner == seq![':', ':', '1'],
{
    let s = seq!['['] + inner + seq![']'] + port;
    reveal_strlit("[::1]");
    reveal_strlit("127.");
    reveal_strlit("localhost");
    let host = text::before_marks(s, seq![':']);
    let mark = seq![':'];
    let stop = |c: char| mark.contains(c);
    text::lemma_before_first(s, stop);
    assert(mark[0] == ':');
    assert(!mark.contains('['));
    assert(host.len() > 0 && host[0] == '[') by {
        if host.len() == 0 {
            assert(stop(s[0]));
        }
    }
    assert(text::ascii_lowered(host)[0] == '[');
    assert(text::ascii_lowered(host) != "localhost"@) by {
        assert("localhost"@[0] == 'l');
    }
    assert(!loopback_v4(host)) by {
        if host.len() >= 4 && host.take(4) == "127."@ {
            assert(host.take(4)[0] == host[0]);
        }
    }
    if inner == seq![':', ':', '1'] {
        assert(s.take(5) =~= LOOPBACK_V6@);
        if port.len() > 0 {
            assert(s[5] == port[0]);
        }
    }
    if loopback(s) {
        let head = s.take(5);
        assert(head[1] == ':' && head[2] == ':' && head[3] == '1' && head[4] == ']');
        assert(s[1] == ':' && s[2] == ':' && s[3] == '1' && s[4] == ']');
        if inner.len() > 3 {
            assert(inner[3] == s[4]);
            assert(inner.contains(']'));
        }
        if inner.len() < 3 {
            assert(s[inner.len() + 1int] == ']');
        }
        assert(inner[0] == s[1] && inner[1] == s[2] && inner[2] == s[3]);
        assert(inner =~= seq![':', ':', '1']);
    }
}

/// A model counts as installed exactly where the server lists its tag, or the latest one of
/// its family.
pub proof fn law_models_are_installed_by_tag_or_family(
    family: Seq<char>,
    size: Seq<char>,
    installed: Seq<String>,
)
    requires
        !family.contains(':'),
    ensures
        installed_in(family + seq![':'] + size, installed) <==> exists|i: int|
            0 <= i < installed.len() && ((#[trigger] installed[i])@ == family + seq![':'] + size
                || installed[i]@ == family + ":latest"@),
{
    let id = family + seq![':'] + size;
    assert forall|i: int| 0 <= i < family.len() implies #[trigger] family[i] != ':' by {
        assert(family.contains(family[i]));
    }
    lemma_port_is_cut(family, seq![':'] + size);
    assert(family + (seq![':'] + size) =~= id);
    assert(latest_alias(id) == family + ":latest"@);
}

} // verus!
