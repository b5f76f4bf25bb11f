//! The launchable entry record, the scoring constants, and the resolver
//! that turns a filesystem path (plus the metadata the caller read for it)
//! into an entry.

use crate::text::{contains_substr, ends_with_str, has_substr};
use vstd::prelude::*;

verus! {

/// How an entry came to be indexed: from a desktop-entry file, or from an
/// arbitrary filesystem path.
#[derive(Clone, Copy, Debug, PartialEq, Eq, Structural)]
pub enum EntryType {
    Application,
    File,
}

/// One launchable item: the unit of both indexing and search results.
#[derive(Clone, Debug)]
pub struct AppEntry {
    /// Unique key in the index; the display title.
    pub name: String,
    /// Optional subtitle; empty allowed.
    pub description: String,
    /// Source file or filesystem path.
    pub path: String,
    /// Shell-executable command line; may still contain desktop-entry
    /// placeholder tokens.
    pub command: String,
    /// Symbolic icon identifier; `application-x-executable` marks
    /// "no icon resolved".
    pub icon_name: String,
    /// Times this entry was launched; seeded from the heatmap.
    pub launch_count: u32,
    pub entry_type: EntryType,
    /// Static score bonus (directory and navigation entries), independent
    /// of any fuzzy-match score.
    pub score_boost: i64,
}

impl AppEntry {
    /// A field-for-field copy. (The derived `Clone` carries no
    /// specification, so verified code copies entries through this.)
    pub fn duplicate(&self) -> (r: AppEntry)
        ensures
            r == *self,
    {
        AppEntry {
            name: self.name.clone(),
            description: self.description.clone(),
            path: self.path.clone(),
            command: self.command.clone(),
            icon_name: self.icon_name.clone(),
            launch_count: self.launch_count,
            entry_type: self.entry_type,
            score_boost: self.score_boost,
        }
    }
}

/// Score added per launch (empty-query mode, and text mode up to
/// `LAUNCH_BONUS_CAP` launches).
pub const BONUS_SCORE_LAUNCH_COUNT: i64 = 100;

/// In text mode, launches beyond this many stop raising the score, so that
/// no launch count can lift a fuzzy match over an exact one.
pub const LAUNCH_BONUS_CAP: u32 = 10;

/// Score added when an entry resolved a real icon.
pub const BONUS_SCORE_ICON_NAME: i64 = 1000;

/// Raw fuzzy-match scores are clamped to this ceiling, keeping every fuzzy
/// total below the fixed bands above it.
pub const FUZZY_SCORE_CAP: i64 = 2000;

/// Score of a plain file row in a path-mode listing.
pub const BONUS_SCORE_FILE_LISTING: i64 = 4400;

/// Score (and static boost) of a directory row in a path-mode listing,
/// including the synthetic `..` entry.
pub const BONUS_SCORE_FOLDER: i64 = 4800;

/// Score of the synthesized system-binary fallback entry.
pub const BONUS_SCORE_BINARY: i64 = 5000;

/// Base score of an exact (case-insensitive) name match; above every other
/// band even after the largest possible bonuses.
pub const BONUS_SCORE_EXACT: i64 = 10000;

/// What the caller's one metadata read says a filesystem path is.
#[derive(Clone, Debug)]
pub enum FileKind {
    Directory,
    /// A regular file with an executable permission bit set.
    ExecutableFile,
    /// Any other regular file, with the MIME type detected for it
    /// (empty when detection failed).
    RegularFile(String),
}

/// `p` without its trailing slashes.
pub open spec fn strip_trailing_slashes(p: Seq<char>) -> Seq<char>
    decreases p.len(),
{
    if p.len() > 0 && p[p.len() - 1] == '/' {
        strip_trailing_slashes(p.drop_last())
    } else {
        p
    }
}

/// The characters after the last `/` of `p` (all of `p` when it has none).
pub open spec fn after_last_slash(p: Seq<char>) -> Seq<char>
    decreases p.len(),
{
    if p.len() == 0 {
        Seq::empty()
    } else if p[p.len() - 1] == '/' {
        Seq::empty()
    } else {
        after_last_slash(p.drop_last()).push(p[p.len() - 1])
    }
}

/// The final path component used as an entry's name: what follows the last
/// slash once trailing slashes are dropped. Empty for the root and for the
/// empty path.
pub open spec fn file_name_of(p: Seq<char>) -> Seq<char> {
    after_last_slash(strip_trailing_slashes(p))
}

/// The icon bucket for a file that is neither a directory nor executable,
/// from its detected MIME type (with a `.pdf` suffix accepted in place of
/// the PDF MIME type).
pub open spec fn mime_icon_spec(mime: Seq<char>, path: Seq<char>) -> Seq<char> {
    if has_substr(mime, "text/"@) {
        "text-x-generic"@
    } else if has_substr(mime, "image/"@) {
        "image-x-generic"@
    } else if has_substr(mime, "audio/"@) {
        "audio-x-generic"@
    } else if has_substr(mime, "video/"@) {
        "video-x-generic"@
    } else if has_substr(mime, "application/pdf"@) || (path.len() >= ".pdf"@.len() && path.skip(
        path.len() - ".pdf"@.len(),
    ) == ".pdf"@) {
        "application-pdf"@
    } else {
        "application-x-generic"@
    }
}

pub fn mime_icon(mime: &str, path: &str) -> (r: &'static str)
    ensures
        r@ == mime_icon_spec(mime@, path@),
{
    if contains_substr(mime, "text/") {
        "text-x-generic"
    } else if contains_substr(mime, "image/") {
        "image-x-generic"
    } else if contains_substr(mime, "audio/") {
        "audio-x-generic"
    } else if contains_substr(mime, "video/") {
        "video-x-generic"
    } else if contains_substr(mime, "application/pdf") || ends_with_str(path, ".pdf") {
        "application-pdf"
    } else {
        "application-x-generic"
    }
}

/// The file name of `path`, or `None` when it has none.
pub fn file_name(path: &str) -> (r: Option<String>)
    ensures
        r is Some <==> file_name_of(path@).len() > 0,
        r matches Some(n) ==> n@ == file_name_of(path@),
{
    let len = path.unicode_len();
    proof {
        assert(path@.take(len as int) =~= path@);
    }
    let mut end: usize = len;
    while end > 0 && path.get_char(end - 1) == '/'
        invariant
            end <= len,
            len == path@.len(),
            strip_trailing_slashes(path@) == strip_trailing_slashes(path@.take(end as int)),
        decreases end,
    {
        proof {
            assert(path@.take(end as int).drop_last() =~= path@.take(end - 1));
        }
        end = end - 1;
    }
    proof {
        assert(strip_trailing_slashes(path@.take(end as int)) == path@.take(end as int)) by {
            if end > 0 {
                assert(path@.take(end as int)[end - 1] == path@[end - 1]);
            }
        }
    }
    let mut start: usize = end;
    while start > 0 && path.get_char(start - 1) != '/'
        invariant
            start <= end,
            end <= len,
            len == path@.len(),
            strip_trailing_slashes(path@) == path@.take(end as int),
            after_last_slash(path@.take(end as int)) == after_last_slash(path@.take(start as int))
                + path@.subrange(start as int, end as int),
        decreases start,
    {
        proof {
            assert(path@.take(start as int).drop_last() =~= path@.take(start - 1));
            assert(after_last_slash(path@.take(start as int)) == after_last_slash(
                path@.take(start - 1),
            ).push(path@[start - 1]));
            assert(after_last_slash(path@.take(start - 1)) + path@.subrange(
                start - 1,
                end as int,
            ) =~= after_last_slash(path@.take(start - 1)).push(path@[start - 1]) + path@.subrange(
                start as int,
                end as int,
            ));
        }
        start = start - 1;
    }
    proof {
        assert(after_last_slash(path@.take(start as int)) =~= Seq::<char>::empty()) by {
            if start > 0 {
                assert(path@.take(start as int)[start - 1] == path@[start - 1]);
            }
        }
        assert(Seq::<char>::empty() + path@.subrange(start as int, end as int) =~= path@.subrange(
            start as int,
            end as int,
        ));
    }
    if start == end {
        None
    } else {
        let piece = path.substring_char(start, end);
        Some(piece.to_owned())
    }
}

/// The icon and command a filesystem entry gets for each file kind:
/// directories are folder rows with no command; executables run themselves
/// (quoted); other files open through the default handler with an icon
/// from their MIME bucket.
pub open spec fn kind_fields_spec(
    path: Seq<char>,
    kind: FileKind,
    icon: Seq<char>,
    command: Seq<char>,
) -> bool {
    match kind {
        FileKind::Directory => icon == "folder"@ && command == Seq::<char>::empty(),
        FileKind::ExecutableFile => icon == "application-x-executable"@ && command == "\""@ + path
            + "\""@,
        FileKind::RegularFile(mime) => icon == mime_icon_spec(mime@, path) && command
            == "xdg-open \""@ + path + "\""@,
    }
}

/// The fields an entry resolved from a filesystem path gets: its file name
/// as its name, the per-kind icon and command, and the folder boost on
/// directories.
pub open spec fn path_entry_spec(path: Seq<char>, kind: FileKind, e: AppEntry) -> bool {
    &&& e.name@ == file_name_of(path)
    &&& e.description@ == Seq::<char>::empty()
    &&& e.path@ == path
    &&& e.launch_count == 0
    &&& e.entry_type == EntryType::File
    &&& kind_fields_spec(path, kind, e.icon_name@, e.command@)
    &&& e.score_boost == (match kind {
        FileKind::Directory => BONUS_SCORE_FOLDER as int,
        _ => 0,
    })
}

/// A field-for-field copy of a file kind.
pub fn duplicate_kind(k: &FileKind) -> (r: FileKind)
    ensures
        r == *k,
{
    match k {
        FileKind::Directory => FileKind::Directory,
        FileKind::ExecutableFile => FileKind::ExecutableFile,
        FileKind::RegularFile(mime) => FileKind::RegularFile(mime.clone()),
    }
}

/// The icon and command for a path of the given kind.
pub fn kind_fields(path: &str, kind: &FileKind) -> (r: (String, String))
    ensures
        kind_fields_spec(path@, *kind, r.0@, r.1@),
{
    match kind {
        FileKind::Directory => (String::from_str("folder"), String::new()),
        FileKind::ExecutableFile => {
            let quoted = String::from_str("\"").concat(path).concat("\"");
            (String::from_str("application-x-executable"), quoted)
        },
        FileKind::RegularFile(mime) => {
            let icon = mime_icon(mime.as_str(), path);
            let open_cmd = String::from_str("xdg-open \"").concat(path).concat("\"");
            (String::from_str(icon), open_cmd)
        },
    }
}

/// Resolves a filesystem path into an entry, given the metadata the caller
/// read for it. `None` exactly when the path has no final name component.
pub fn create_file_entry(path: String, kind: FileKind) -> (r: Option<AppEntry>)
    ensures
        r is Some <==> file_name_of(path@).len() > 0,
        r matches Some(e) ==> path_entry_spec(path@, kind, e),
{
    let name = match file_name(path.as_str()) {
        Some(n) => n,
        None => {
            return None;
        },
    };
    let (icon_name, command) = kind_fields(path.as_str(), &kind);
    let score_boost: i64 = match &kind {
        FileKind::Directory => BONUS_SCORE_FOLDER,
        _ => 0,
    };
    Some(
        AppEntry {
            name,
            description: String::new(),
            path,
            command,
            icon_name,
            launch_count: 0,
            entry_type: EntryType::File,
            score_boost,
        },
    )
}


/// Placeholder codes that are dropped from a desktop-entry command line:
/// the file, URL and icon tokens, which a keystroke launcher has no
/// arguments for.
pub open spec fn is_dropped_code(c: char) -> bool {
    c == 'f' || c == 'F' || c == 'u' || c == 'U' || c == 'i'
}

/// A desktop-entry command line with its placeholder tokens substituted:
/// file, URL and icon tokens become empty, `%c` the entry's name.
pub open spec fn subst_spec(s: Seq<char>, name: Seq<char>) -> Seq<char>
    decreases s.len(),
{
    if s.len() == 0 {
        Seq::empty()
    } else if s.len() >= 2 && s[0] == '%' && is_dropped_code(s[1]) {
        subst_spec(s.skip(2), name)
    } else if s.len() >= 2 && s[0] == '%' && s[1] == 'c' {
        name + subst_spec(s.skip(2), name)
    } else {
        seq![s[0]] + subst_spec(s.drop_first(), name)
    }
}

/// The command the caller runs for an Application entry: its command line
/// with the placeholder tokens substituted and outer whitespace trimmed.
/// (The resolver stores command lines raw; this is the launch boundary.)
pub fn expand_command(command: &str, name: &str) -> (r: String)
    ensures
        r@ == crate::text::trim_spec(subst_spec(command@, name@)),
{
    let n = command.unicode_len();
    let mut out = String::new();
    proof {
        assert(command@.skip(0) =~= command@);
        assert(out@ + subst_spec(command@.skip(0), name@) =~= subst_spec(command@, name@));
    }
    let mut i: usize = 0;
    while i < n
        invariant
            n == command@.len(),
            i <= n,
            subst_spec(command@, name@) == out@ + subst_spec(command@.skip(i as int), name@),
        decreases n - i,
    {
        let ghost t = command@.skip(i as int);
        proof {
            assert(t[0] == command@[i as int]);
            if t.len() >= 2 {
                assert(t[1] == command@[i + 1]);
            }
        }
        let c = command.get_char(i);
        if c == '%' && i + 1 < n {
            let c2 = command.get_char(i + 1);
            if c2 == 'f' || c2 == 'F' || c2 == 'u' || c2 == 'U' || c2 == 'i' {
                proof {
                    assert(t.skip(2) =~= command@.skip(i + 2));
                }
                i = i + 2;
                continue ;
            }
            if c2 == 'c' {
                out.append(name);
                proof {
                    assert(t.skip(2) =~= command@.skip(i + 2));
                }
                i = i + 2;
                continue ;
            }
        }
        crate::bindings::push_char(&mut out, c);
        proof {
            assert(t.drop_first() =~= command@.skip(i + 1));
            assert(out@ + subst_spec(command@.skip(i + 1), name@) =~= subst_spec(
                command@,
                name@,
            ));
        }
        i = i + 1;
    }
    proof {
        assert(subst_spec(command@.skip(n as int), name@) =~= Seq::<char>::empty());
        assert(out@ =~= subst_spec(command@, name@));
    }
    trim_string(out)
}

/// A copy of `s` without leading and trailing whitespace.
pub fn trim_string(s: String) -> (r: String)
    ensures
        r@ == crate::text::trim_spec(s@),
{
    proof {
        crate::text::lemma_lead_ws_char(s@);
        crate::text::lemma_tail_ws_char(s@);
    }
    let n = s.as_str().unicode_len();
    let mut a: usize = 0;
    while a < n && crate::text::is_space(s.as_str().get_char(a))
        invariant
            n == s@.len(),
            a <= n,
            forall|k: int| 0 <= k < a ==> crate::text::is_space_char(#[trigger] s@[k]),
        decreases n - a,
    {
        a = a + 1;
    }
    proof {
        assert(a == crate::text::lead_ws(s@)) by {
            crate::text::lemma_lead_ws_char(s@);
            if a < crate::text::lead_ws(s@) {
                assert(crate::text::is_space_char(s@[a as int]));
            }
            if a > crate::text::lead_ws(s@) {
                assert(!crate::text::is_space_char(s@[crate::text::lead_ws(s@)]));
            }
        }
    }
    if a == n {
        return String::new();
    }
    let mut e: usize = n;
    while e > 0 && crate::text::is_space(s.as_str().get_char(e - 1))
        invariant
            n == s@.len(),
            e <= n,
            forall|k: int| e <= k < n ==> crate::text::is_space_char(#[trigger] s@[k]),
        decreases e,
    {
        e = e - 1;
    }
    proof {
        assert(n - e == crate::text::tail_ws(s@)) by {
            crate::text::lemma_tail_ws_char(s@);
            if n - e < crate::text::tail_ws(s@) {
                assert(crate::text::is_space_char(s@[e - 1]));
            }
            if n - e > crate::text::tail_ws(s@) {
                assert(!crate::text::is_space_char(s@[n - crate::text::tail_ws(s@) - 1]));
            }
        }
        assert(a <= e) by {
            if a >= e {
                assert(crate::text::is_space_char(s@[a as int]));
            }
        }
    }
    let piece = s.as_str().substring_char(a, e);
    String::from_str(piece)
}

/// A raw input path with a leading `~` or `$` expanded; any other path
/// passes through untouched. `None` when expansion fails (an unset
/// variable).
pub fn expand_input_path(path: String) -> (r: Option<String>)
    ensures
        (path@.len() == 0 || (path@[0] != '~' && path@[0] != '$')) ==> r == Some(path),
{
    let n = path.as_str().unicode_len();
    if n > 0 {
        let c = path.as_str().get_char(0);
        if c == '~' || c == '$' {
            return crate::bindings::expand_full_str(path.as_str());
        }
    }
    Some(path)
}

} // verus!
