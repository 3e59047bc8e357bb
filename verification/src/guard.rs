//! The protection guard: the predicate that refuses deletion of
//! sensitive paths.
//!
//! A path is refused when it equals, or lies under, `home/<entry>` for an
//! entry of the platform's protected list, and also when it sits directly
//! in the home directory under a name outside a short allow-list of known
//! cache directories. Scanners consult the guard before collecting a
//! candidate, and the deletion engine consults it again before acting.

use vstd::prelude::*;

use crate::pathutil::{
    chars_eq, file_name, file_name_of, has_parent, is_prefix_of, joined, normalized, parent,
    parent_of, path_join, starts_with, str_to_chars,
};
use crate::platform::{spec_separator, Platform};

verus! {

/// The per-platform list of protected entries, each relative to the home
/// directory and written with `/`.
pub open spec fn spec_protected_entries(p: Platform) -> Seq<Seq<char>> {
    match p {
        Platform::MacOs => seq![
            ".ssh"@,
            ".gnupg"@,
            ".aws"@,
            ".kube"@,
            ".docker/config.json"@,
            ".gitconfig"@,
            ".zshrc"@,
            ".bashrc"@,
            ".bash_profile"@,
            ".profile"@,
            ".env"@,
            "Library/Keychains"@,
            "Library/Preferences"@,
            "Library/Safari/Bookmarks.plist"@,
            "Library/Mail"@,
            "Library/Messages"@,
            "Library/Calendars"@,
            "Library/Notes"@,
            ".config"@,
            ".local/share"@,
            ".vim"@,
            ".vimrc"@,
            ".zsh_history"@,
        ],
        Platform::Windows => seq![
            ".ssh"@,
            ".gnupg"@,
            ".aws"@,
            ".kube"@,
            ".docker/config.json"@,
            ".gitconfig"@,
            "AppData/Roaming/Microsoft"@,
            "AppData/Local/Microsoft"@,
            "AppData/Roaming/Code/User/settings.json"@,
            "NTUSER.DAT"@,
            ".config"@,
            ".vim"@,
            ".zsh_history"@,
            "Windows"@,
            "Program Files"@,
            "Program Files (x86)"@,
        ],
        Platform::Linux => seq![
            ".ssh"@,
            ".gnupg"@,
            ".aws"@,
            ".kube"@,
            ".docker/config.json"@,
            ".gitconfig"@,
            ".config"@,
            ".local/share"@,
            ".vim"@,
            "Desktop"@,
            "Documents"@,
            "Pictures"@,
            "Videos"@,
            "Music"@,
            "Downloads"@,
        ],
    }
}

/// Top-level names directly under home that scanners may touch.
pub open spec fn spec_safe_top_level() -> Seq<Seq<char>> {
    seq![".cache"@, ".npm"@, ".gradle"@, ".m2"@, ".cargo"@, ".nuget"@, ".Trash"@]
}

/// True when `path` equals, or is a descendant of, `home/<entry>`
/// (the entry's `/` normalized to the platform separator).
pub open spec fn matches_protected_entry(
    path: Seq<char>,
    home: Seq<char>,
    sep: char,
    entry: Seq<char>,
) -> bool {
    let full = joined(home, sep, entry);
    path == full || is_prefix_of(full + seq![sep], path)
}

/// True when some entry of the platform's protected list covers `path`.
pub open spec fn in_protected_list(path: Seq<char>, home: Seq<char>, p: Platform) -> bool {
    exists|i: int|
        0 <= i < spec_protected_entries(p).len() && matches_protected_entry(
            path,
            home,
            spec_separator(p),
            spec_protected_entries(p)[i],
        )
}

/// True when `path` sits directly in the home directory under a name
/// outside the allow-list of known cache directories.
pub open spec fn unlisted_top_level(path: Seq<char>, home: Seq<char>, p: Platform) -> bool {
    let sep = spec_separator(p);
    &&& has_parent(path, sep)
    &&& parent_of(path, sep) == home
    &&& !spec_safe_top_level().contains(file_name_of(path, sep))
}

/// The protection predicate: deletion of `path` must be refused.
pub open spec fn spec_is_protected(path: Seq<char>, home: Seq<char>, p: Platform) -> bool {
    in_protected_list(path, home, p) || unlisted_top_level(path, home, p)
}

/// The platform's protected entries as runtime values.
pub fn protected_entries(p: Platform) -> (v: Vec<Vec<char>>)
    ensures
        v.deep_view() == spec_protected_entries(p),
{
    let mut v: Vec<Vec<char>> = Vec::new();
    match p {
        Platform::MacOs => {
            v.push(str_to_chars(".ssh"));
            v.push(str_to_chars(".gnupg"));
            v.push(str_to_chars(".aws"));
            v.push(str_to_chars(".kube"));
            v.push(str_to_chars(".docker/config.json"));
            v.push(str_to_chars(".gitconfig"));
            v.push(str_to_chars(".zshrc"));
            v.push(str_to_chars(".bashrc"));
            v.push(str_to_chars(".bash_profile"));
            v.push(str_to_chars(".profile"));
            v.push(str_to_chars(".env"));
            v.push(str_to_chars("Library/Keychains"));
            v.push(str_to_chars("Library/Preferences"));
            v.push(str_to_chars("Library/Safari/Bookmarks.plist"));
            v.push(str_to_chars("Library/Mail"));
            v.push(str_to_chars("Library/Messages"));
            v.push(str_to_chars("Library/Calendars"));
            v.push(str_to_chars("Library/Notes"));
            v.push(str_to_chars(".config"));
            v.push(str_to_chars(".local/share"));
            v.push(str_to_chars(".vim"));
            v.push(str_to_chars(".vimrc"));
            v.push(str_to_chars(".zsh_history"));
        },
        Platform::Windows => {
            v.push(str_to_chars(".ssh"));
            v.push(str_to_chars(".gnupg"));
            v.push(str_to_chars(".aws"));
            v.push(str_to_chars(".kube"));
            v.push(str_to_chars(".docker/config.json"));
            v.push(str_to_chars(".gitconfig"));
            v.push(str_to_chars("AppData/Roaming/Microsoft"));
            v.push(str_to_chars("AppData/Local/Microsoft"));
            v.push(str_to_chars("AppData/Roaming/Code/User/settings.json"));
            v.push(str_to_chars("NTUSER.DAT"));
            v.push(str_to_chars(".config"));
            v.push(str_to_chars(".vim"));
            v.push(str_to_chars(".zsh_history"));
            v.push(str_to_chars("Windows"));
            v.push(str_to_chars("Program Files"));
            v.push(str_to_chars("Program Files (x86)"));
        },
        Platform::Linux => {
            v.push(str_to_chars(".ssh"));
            v.push(str_to_chars(".gnupg"));
            v.push(str_to_chars(".aws"));
            v.push(str_to_chars(".kube"));
            v.push(str_to_chars(".docker/config.json"));
            v.push(str_to_chars(".gitconfig"));
            v.push(str_to_chars(".config"));
            v.push(str_to_chars(".local/share"));
            v.push(str_to_chars(".vim"));
            v.push(str_to_chars("Desktop"));
            v.push(str_to_chars("Documents"));
            v.push(str_to_chars("Pictures"));
            v.push(str_to_chars("Videos"));
            v.push(str_to_chars("Music"));
            v.push(str_to_chars("Downloads"));
        },
    }
    assert(v.deep_view() =~~= spec_protected_entries(p));
    v
}

/// The allow-list of safe top-level names as runtime values.
pub fn safe_top_level() -> (v: Vec<Vec<char>>)
    ensures
        v.deep_view() == spec_safe_top_level(),
{
    let mut v: Vec<Vec<char>> = Vec::new();
    v.push(str_to_chars(".cache"));
    v.push(str_to_chars(".npm"));
    v.push(str_to_chars(".gradle"));
    v.push(str_to_chars(".m2"));
    v.push(str_to_chars(".cargo"));
    v.push(str_to_chars(".nuget"));
    v.push(str_to_chars(".Trash"));
    assert(v.deep_view() =~~= spec_safe_top_level());
    v
}

fn matches_entry(path: &Vec<char>, home: &Vec<char>, sep: char, entry: &Vec<char>) -> (r: bool)
    ensures
        r == matches_protected_entry(path@, home@, sep, entry@),
{
    let mut full = path_join(home, sep, entry);
    if chars_eq(path, &full) {
        return true;
    }
    full.push(sep);
    assert(full@ == joined(home@, sep, entry@) + seq![sep]);
    starts_with(path, &full)
}

/// Whether deletion of `path` must be refused, given the user's home
/// directory and the host platform.
pub fn is_protected(path: &Vec<char>, home: &Vec<char>, p: Platform) -> (r: bool)
    ensures
        r == spec_is_protected(path@, home@, p),
{
    let sep = p.separator();
    let entries = protected_entries(p);
    let mut i: usize = 0;
    while i < entries.len()
        invariant
            i <= entries@.len(),
            entries.deep_view() == spec_protected_entries(p),
            sep == spec_separator(p),
            forall|k: int|
                0 <= k < i ==> !matches_protected_entry(
                    path@,
                    home@,
                    sep,
                    spec_protected_entries(p)[k],
                ),
        decreases entries@.len() - i,
    {
        proof {
            crate::pathutil::lemma_deep_view_entry(&entries, i as int);
        }
        if matches_entry(path, home, sep, &entries[i]) {
            assert(in_protected_list(path@, home@, p));
            return true;
        }
        i += 1;
    }
    assert(!in_protected_list(path@, home@, p));

    match parent(path, sep) {
        Some(par) => {
            if chars_eq(&par, home) {
                let name = file_name(path, sep);
                let safe = safe_top_level();
                let mut j: usize = 0;
                while j < safe.len()
                    invariant
                        j <= safe@.len(),
                        safe.deep_view() == spec_safe_top_level(),
                        name@ == file_name_of(path@, spec_separator(p)),
                        forall|k: int| 0 <= k < j ==> spec_safe_top_level()[k] != name@,
                    decreases safe@.len() - j,
                {
                    proof {
                        crate::pathutil::lemma_deep_view_entry(&safe, j as int);
                    }
                    if chars_eq(&name, &safe[j]) {
                        assert(spec_safe_top_level().contains(name@));
                        return false;
                    }
                    j += 1;
                }
                assert(!spec_safe_top_level().contains(name@));
                assert(unlisted_top_level(path@, home@, p));
                true
            } else {
                assert(!unlisted_top_level(path@, home@, p));
                false
            }
        },
        None => {
            assert(!unlisted_top_level(path@, home@, p));
            false
        },
    }
}

/// Every path that an entry of the platform's protected list covers is
/// protected: the guard refuses `home/<entry>` itself and everything
/// beneath it.
pub proof fn lemma_protected_list_refused(
    path: Seq<char>,
    home: Seq<char>,
    p: Platform,
    i: int,
)
    requires
        0 <= i < spec_protected_entries(p).len(),
        matches_protected_entry(path, home, spec_separator(p), spec_protected_entries(p)[i]),
    ensures
        spec_is_protected(path, home, p),
{
}

/// Every path directly under home whose name is not on the allow-list of
/// safe cache names is protected.
pub proof fn lemma_home_top_level_refused(path: Seq<char>, home: Seq<char>, p: Platform)
    requires
        has_parent(path, spec_separator(p)),
        parent_of(path, spec_separator(p)) == home,
        !spec_safe_top_level().contains(file_name_of(path, spec_separator(p))),
    ensures
        spec_is_protected(path, home, p),
{
}

} // verus!
