//! The decisions of the language server: what it logs about the tags, how it answers a
//! request, and what a notification makes it do.

use vstd::prelude::*;
use vstd::string::*;
use vstd::utf8::*;

use crate::registry::{sites, TagRegistry};
use crate::report::{decimal, digits_value, lemma_decimal_numeral};
use crate::report::decimal_text;
use crate::tag_syntax::TagKind;
use crate::tags::{TagLocation, TagSite};

verus! {

/// The log line of a location of the given kind: `[TGT] [NAME]: PATH:LINE` for a target,
/// `[LNK] [NAME]: PATH:LINE` for a link.
pub open spec fn tag_log(kind: TagKind, site: TagSite) -> Seq<char> {
    let head = match kind {
        TagKind::Target => "[TGT] ["@,
        TagKind::Link => "[LNK] ["@,
    };
    head + site.tag + "]: "@ + site.path + ":"@ + decimal(site.line_number as nat)
}

/// The log lines of the registry: one per target, then one per link, in table order.
pub open spec fn registry_log(tags: TagRegistry) -> Seq<Seq<char>> {
    sites(tags.target_tags.tags@).map_values(|site: TagSite| tag_log(TagKind::Target, site))
        + sites(tags.link_tags.tags@).map_values(|site: TagSite| tag_log(TagKind::Link, site))
}

/// The opening of a log line: `[TGT] [` or `[LNK] [`.
pub open spec fn log_head(kind: TagKind) -> Seq<char> {
    match kind {
        TagKind::Target => seq!['[', 'T', 'G', 'T', ']', ' ', '['],
        TagKind::Link => seq!['[', 'L', 'N', 'K', ']', ' ', '['],
    }
}

/// `r` reads as the log line of `site`: the opening of its kind, the whole name, `]: `, the
/// whole path, `:`, and the full line number in decimal digits (no digit dropped, no
/// leading zero), which run to the end of the line.
pub open spec fn log_has_fields(r: Seq<char>, kind: TagKind, site: TagSite) -> bool {
    let t: int = 7 + site.tag.len() as int;
    let a: int = t + 3 + site.path.len();
    &&& a + 2 <= r.len()
    &&& r.subrange(0, 7) == log_head(kind)
    &&& r.subrange(7, t) == site.tag
    &&& r.subrange(t, t + 3) == seq![']', ':', ' ']
    &&& r.subrange(t + 3, a) == site.path
    &&& r[a] == ':'
    &&& (forall|i: int| a + 1 <= i < r.len() ==> '0' <= #[trigger] r[i] <= '9')
    &&& digits_value(r.subrange(a + 1, r.len() as int)) == site.line_number
    &&& (r[a + 1] == '0' ==> site.line_number == 0)
}

/// A log line holds, field by field, the kind's opening, the whole name, the whole path
/// and the full line number of its site.
pub proof fn lemma_log_fields(kind: TagKind, site: TagSite)
    ensures
        log_has_fields(tag_log(kind, site), kind, site),
{
    reveal_strlit("[TGT] [");
    reveal_strlit("[LNK] [");
    reveal_strlit("]: ");
    reveal_strlit(":");
    let n = site.line_number as nat;
    lemma_decimal_numeral(n);
    let head = log_head(kind);
    let lit = match kind {
        TagKind::Target => "[TGT] ["@,
        TagKind::Link => "[LNK] ["@,
    };
    assert(lit =~= head);
    let dec = decimal(n);
    let r = tag_log(kind, site);
    assert(r =~= head + site.tag + seq![']', ':', ' '] + site.path + seq![':'] + dec);
    let t: int = 7 + site.tag.len() as int;
    let a: int = t + 3 + site.path.len();
    assert(r.subrange(0, 7) =~= head);
    assert(r.subrange(7, t) =~= site.tag);
    assert(r.subrange(t, t + 3) =~= seq![']', ':', ' ']);
    assert(r.subrange(t + 3, a) =~= site.path);
    assert(r.subrange(a + 1, r.len() as int) =~= dec);
    assert forall|i: int| a + 1 <= i < r.len() implies '0' <= #[trigger] r[i] <= '9' by {
        assert(r[i] == dec[i - a - 1]);
    }
    assert(r[a + 1] == dec[0]);
}

/// Every line that the server logs about its tags holds the whole name, the whole path and
/// the full line number of its location: the `i`-th of the targets, then the links.
pub proof fn lemma_registry_log_fields(tags: TagRegistry, i: int)
    requires
        0 <= i < registry_log(tags).len(),
    ensures
        i < tags.target_tags.tags@.len() ==> log_has_fields(
            registry_log(tags)[i],
            TagKind::Target,
            tags.target_tags.tags@[i]@,
        ),
        i >= tags.target_tags.tags@.len() ==> log_has_fields(
            registry_log(tags)[i],
            TagKind::Link,
            tags.link_tags.tags@[i - tags.target_tags.tags@.len()]@,
        ),
{
    let nt = tags.target_tags.tags@.len() as int;
    if i < nt {
        lemma_log_fields(TagKind::Target, tags.target_tags.tags@[i]@);
    } else {
        lemma_log_fields(TagKind::Link, tags.link_tags.tags@[i - nt]@);
    }
}

fn tag_log_line(kind: TagKind, loc: &TagLocation) -> (res: String)
    ensures
        res@ == tag_log(kind, loc@),
        log_has_fields(res@, kind, loc@),
{
    proof {
        lemma_log_fields(kind, loc@);
    }
    let mut res = match kind {
        TagKind::Target => String::from_str("[TGT] ["),
        TagKind::Link => String::from_str("[LNK] ["),
    };
    res.append(loc.line_content.as_str());
    res.append("]: ");
    res.append(loc.path.as_str());
    res.append(":");
    let num = decimal_text(loc.line_number);
    res.append(num.as_str());
    res
}

fn append_log(out: &mut Vec<String>, kind: TagKind, locs: &Vec<TagLocation>)
    ensures
        final(out)@.map_values(|t: String| t@) == old(out)@.map_values(|t: String| t@) + sites(
            locs@,
        ).map_values(|site: TagSite| tag_log(kind, site)),
{
    let ghost lines = sites(locs@).map_values(|site: TagSite| tag_log(kind, site));
    let ghost before = out@.map_values(|t: String| t@);
    let n: usize = locs.len();
    for k in 0..n
        invariant
            n == locs@.len(),
            lines == sites(locs@).map_values(|site: TagSite| tag_log(kind, site)),
            before == old(out)@.map_values(|t: String| t@),
            out@.map_values(|t: String| t@) == before + lines.take(k as int),
    {
        let ghost prev = out@;
        out.push(tag_log_line(kind, &locs[k]));
        assert(out@.map_values(|t: String| t@) =~= prev.map_values(|t: String| t@).push(
            lines[k as int],
        ));
        assert(lines.take(k + 1) =~= lines.take(k as int).push(lines[k as int]));
    }
    assert(lines.take(n as int) =~= lines);
}

/// The lines that the server logs about the tags it knows: one per target, then one per link.
pub fn _print_tags(tags: &TagRegistry) -> (res: Vec<String>)
    ensures
        res@.map_values(|t: String| t@) == registry_log(*tags),
        res@.len() == tags.target_tags.tags@.len() + tags.link_tags.tags@.len(),
        forall|i: int|
            0 <= i < tags.target_tags.tags@.len() ==> log_has_fields(
                #[trigger] res@[i]@,
                TagKind::Target,
                tags.target_tags.tags@[i]@,
            ),
        forall|i: int|
            0 <= i < tags.link_tags.tags@.len() ==> log_has_fields(
                #[trigger] res@[tags.target_tags.tags@.len() + i]@,
                TagKind::Link,
                tags.link_tags.tags@[i]@,
            ),
{
    let mut out: Vec<String> = Vec::new();
    assert(out@.map_values(|t: String| t@) =~= Seq::<Seq<char>>::empty());
    append_log(&mut out, TagKind::Target, &tags.target_tags.tags);
    append_log(&mut out, TagKind::Link, &tags.link_tags.tags);
    proof {
        let nt = tags.target_tags.tags@.len() as int;
        let lines = out@.map_values(|t: String| t@);
        assert(lines.len() == out@.len());
        assert forall|i: int| 0 <= i < nt implies log_has_fields(
            #[trigger] out@[i]@,
            TagKind::Target,
            tags.target_tags.tags@[i]@,
        ) by {
            assert(lines[i] == out@[i]@);
            lemma_registry_log_fields(*tags, i);
        }
        assert forall|i: int| 0 <= i < tags.link_tags.tags@.len() implies log_has_fields(
            #[trigger] out@[nt + i]@,
            TagKind::Link,
            tags.link_tags.tags@[i]@,
        ) by {
            assert(lines[nt + i] == out@[nt + i]@);
            lemma_registry_log_fields(*tags, nt + i);
        }
    }
    out
}

/// Whether two strings hold the same characters.
pub fn same_text(a: &str, b: &str) -> (res: bool)
    ensures
        res == (a@ == b@),
{
    let x = a.as_bytes();
    let y = b.as_bytes();
    proof {
        encode_utf8_decode_utf8(a@);
        encode_utf8_decode_utf8(b@);
    }
    if x.len() != y.len() {
        return false;
    }
    let n: usize = x.len();
    for i in 0..n
        invariant
            n == x@.len(),
            n == y@.len(),
            x@ == a.spec_bytes(),
            y@ == b.spec_bytes(),
            forall|j: int| 0 <= j < i ==> x@[j] == y@[j],
    {
        if x[i] != y[i] {
            return false;
        }
    }
    assert(x@ =~= y@);
    true
}

/// The JSON-RPC error code for a method that the server does not know.
pub const METHOD_NOT_FOUND: i32 = -32601;

/// How the server answers a request.
#[derive(Debug, PartialEq, Eq)]
pub enum RequestReply {
    /// The document links of the document: the server offers none, so the list is empty.
    DocumentLinks,
    /// An error with its code and message.
    Error { code: i32, message: String },
}

/// Decides how to answer a request for `method`.
pub fn reply_to_request(method: &str) -> (res: RequestReply)
    ensures
        method@ == "textDocument/documentLink"@ ==> res == RequestReply::DocumentLinks,
        method@ != "textDocument/documentLink"@ ==> (res matches RequestReply::Error { code, message }
            && code == METHOD_NOT_FOUND && message@ == "unhandled method"@),
{
    if same_text(method, "textDocument/documentLink") {
        RequestReply::DocumentLinks
    } else {
        RequestReply::Error { code: METHOD_NOT_FOUND, message: String::from_str("unhandled method") }
    }
}

/// What a notification makes the server do.
#[derive(Clone, Copy, Debug, PartialEq, Eq, Structural)]
pub enum NotificationEffect {
    /// The workspace folders changed: the server reports the folders added and removed.
    ReportFolderChanges,
    /// Files changed: the server scans its workspace folders for tags anew.
    Rescan,
    /// Any other notification is ignored.
    Ignore,
}

/// Decides what a notification for `method` makes the server do.
pub fn notification_effect(method: &str) -> (res: NotificationEffect)
    ensures
        res == (if method@ == "workspace/didChangeWorkspaceFolders"@ {
            NotificationEffect::ReportFolderChanges
        } else if method@ == "workspace/didChangeWatchedFiles"@ {
            NotificationEffect::Rescan
        } else {
            NotificationEffect::Ignore
        }),
{
    if same_text(method, "workspace/didChangeWorkspaceFolders") {
        NotificationEffect::ReportFolderChanges
    } else if same_text(method, "workspace/didChangeWatchedFiles") {
        NotificationEffect::Rescan
    } else {
        NotificationEffect::Ignore
    }
}

/// What the server knows: the paths of its workspace folders, and the tags found in them.
pub struct TraversalLspState {
    pub workspace_folders: Vec<String>,
    pub tags: TagRegistry,
}

impl TraversalLspState {
    /// No workspace folder and no tag.
    pub fn new() -> (res: TraversalLspState)
        ensures
            res.workspace_folders@.len() == 0,
            res.tags.target_tags.tags@.len() == 0,
            res.tags.link_tags.tags@.len() == 0,
    {
        TraversalLspState { workspace_folders: Vec::new(), tags: TagRegistry::new() }
    }

    /// Adds a workspace folder, given by the scheme and the path of its URI. The server
    /// serves local folders only: the scheme must be `file`.
    pub fn add_workspace_folder(&mut self, scheme: &str, path: String)
        requires
            scheme@ == "file"@,
        ensures
            final(self).workspace_folders@ == old(self).workspace_folders@.push(path),
            final(self).tags == old(self).tags,
    {
        self.workspace_folders.push(path);
    }
}

impl Default for TraversalLspState {
    fn default() -> (res: TraversalLspState)
        ensures
            res.workspace_folders@.len() == 0,
            res.tags.target_tags.tags@.len() == 0,
            res.tags.link_tags.tags@.len() == 0,
    {
        TraversalLspState::new()
    }
}

} // verus!
