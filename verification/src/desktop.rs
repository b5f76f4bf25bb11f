//! The desktop-entry resolver: turns the text of one desktop-entry file
//! into an indexed application.
//!
//! A desktop-entry file is lines of `Key=Value` pairs under `[Section]`
//! headers. Only the keys of the `[Desktop Entry]` section are consulted,
//! each key's first line winning, and keys and values are taken as
//! written, with no blank trimming around the `=`.

use crate::entry::{AppEntry, EntryType};
use crate::text::split_char;
use vstd::prelude::*;

verus! {

/// Does the line open a section?
pub open spec fn is_header(l: Seq<char>) -> bool {
    l.len() >= 2 && l[0] == '[' && l[l.len() - 1] == ']'
}

/// Does the line give `key` a value?
pub open spec fn is_key_line(l: Seq<char>, key: Seq<char>) -> bool {
    l.len() > key.len() && l.take(key.len() as int) == key && l[key.len() as int] == '='
}

/// The value of the first `key` line among `lines`, tracking whether the
/// scan stands in the `[Desktop Entry]` section.
pub open spec fn attr_in(lines: Seq<Seq<char>>, key: Seq<char>, in_section: bool) -> Option<
    Seq<char>,
>
    decreases lines.len(),
{
    if lines.len() == 0 {
        None
    } else if is_header(lines[0]) {
        attr_in(lines.drop_first(), key, lines[0] == "[Desktop Entry]"@)
    } else if in_section && is_key_line(lines[0], key) {
        Some(lines[0].skip(key.len() as int + 1))
    } else {
        attr_in(lines.drop_first(), key, in_section)
    }
}

/// The value the file's `[Desktop Entry]` section gives `key`, if any.
pub open spec fn desktop_attr(text: Seq<char>, key: Seq<char>) -> Option<Seq<char>> {
    attr_in(split_char(text, '\n'), key, false)
}

/// The fields a resolved desktop entry carries: the file's `Name`, its
/// command line (empty where the file has none), its icon (the generic
/// executable where the file names none), and its `Comment` — or, failing
/// that, `GenericName` — as the description.
pub open spec fn desktop_entry_ok(path: Seq<char>, text: Seq<char>, e: AppEntry) -> bool {
    &&& Some(e.name@) == desktop_attr(text, "Name"@)
    &&& e.command@ == (match desktop_attr(text, "Exec"@) {
        Some(v) => v,
        None => Seq::<char>::empty(),
    })
    &&& e.icon_name@ == (match desktop_attr(text, "Icon"@) {
        Some(v) => v,
        None => "application-x-executable"@,
    })
    &&& e.description@ == (match desktop_attr(text, "Comment"@) {
        Some(v) => v,
        None => match desktop_attr(text, "GenericName"@) {
            Some(v) => v,
            None => Seq::<char>::empty(),
        },
    })
    &&& e.path@ == path
    &&& e.launch_count == 0
    &&& e.entry_type == EntryType::Application
    &&& e.score_boost == 0
}

/// Whether the file asks not to be displayed.
pub open spec fn no_display(text: Seq<char>) -> bool {
    desktop_attr(text, "NoDisplay"@) == Some("true"@)
}

/// Looks `key` up in the file's `[Desktop Entry]` section.
pub fn lookup_attr(lines: &Vec<String>, key: &str) -> (r: Option<String>)
    ensures
        r is Some <==> attr_in(lines.deep_view(), key@, false) is Some,
        r matches Some(v) ==> attr_in(lines.deep_view(), key@, false) == Some(v@),
{
    let ghost lv = lines.deep_view();
    let n = lines.len();
    let klen = key.unicode_len();
    let mut in_section = false;
    proof {
        assert(lv.skip(0) =~= lv);
    }
    let mut i: usize = 0;
    while i < n
        invariant
            n == lines@.len(),
            lv == lines.deep_view(),
            klen == key@.len(),
            i <= n,
            attr_in(lv, key@, false) == attr_in(lv.skip(i as int), key@, in_section),
        decreases n - i,
    {
        proof {
            assert(lv.skip(i as int)[0] == lv[i as int]);
            assert(lv.skip(i as int).drop_first() =~= lv.skip(i + 1));
        }
        let line = &lines[i];
        let ln = line.as_str().unicode_len();
        let header = ln >= 2 && line.as_str().get_char(0) == '[' && line.as_str().get_char(ln - 1)
            == ']';
        if header {
            in_section = crate::text::str_eq(line.as_str(), "[Desktop Entry]");
        } else if in_section && ln > klen {
            let head = line.as_str().substring_char(0, klen);
            if crate::text::str_eq(head, key) && line.as_str().get_char(klen) == '=' {
                let value = line.as_str().substring_char(klen + 1, ln);
                proof {
                    assert(is_key_line(lv[i as int], key@));
                    assert(lv[i as int].skip(klen as int + 1) =~= line@.subrange(
                        klen + 1,
                        ln as int,
                    ));
                }
                return Some(value.to_owned());
            }
            proof {
                assert(!is_key_line(lv[i as int], key@));
            }
        } else {
            proof {
                assert(!is_header(lv[i as int]));
                if in_section {
                    assert(!is_key_line(lv[i as int], key@));
                }
            }
        }
        i = i + 1;
    }
    proof {
        assert(lv.skip(n as int) =~= Seq::<Seq<char>>::empty());
    }
    None
}

/// Resolves one desktop-entry file, given its path and its text. `None`
/// exactly where the file hides itself (`NoDisplay=true`) or names no
/// `Name`; the caller also hands in `None` for a file it could not read,
/// which resolves to nothing the same way.
pub fn parse_desktop_entry(path: String, text: &str) -> (r: Option<AppEntry>)
    ensures
        r is Some <==> (desktop_attr(text@, "Name"@) is Some && !no_display(text@)),
        r matches Some(e) ==> desktop_entry_ok(path@, text@, e),
{
    let lines = crate::text::split_on(text, 0, '\n');
    match lookup_attr(&lines, "NoDisplay") {
        Some(v) => {
            if crate::text::str_eq(v.as_str(), "true") {
                return None;
            }
        },
        None => {},
    }
    let name = match lookup_attr(&lines, "Name") {
        Some(v) => v,
        None => {
            return None;
        },
    };
    let command = match lookup_attr(&lines, "Exec") {
        Some(v) => v,
        None => String::new(),
    };
    let icon_name = match lookup_attr(&lines, "Icon") {
        Some(v) => v,
        None => String::from_str("application-x-executable"),
    };
    let description = match lookup_attr(&lines, "Comment") {
        Some(v) => v,
        None => match lookup_attr(&lines, "GenericName") {
            Some(v) => v,
            None => String::new(),
        },
    };
    Some(
        AppEntry {
            name,
            description,
            path,
            command,
            icon_name,
            launch_count: 0,
            entry_type: EntryType::Application,
            score_boost: 0,
        },
    )
}

} // verus!
