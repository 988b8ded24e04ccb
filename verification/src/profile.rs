//! Which profile files are synced, and how the active Zen profile is
//! found from `profiles.ini` or the profile folder names.
use vstd::prelude::*;

use crate::text::{lines, lowercase, starts_with, trim};

verus! {

/// Files synced by default. Order matters for display.
///
/// extensions.json is intentionally excluded: it stores absolute paths to XPI files
/// that are OS-specific (e.g. /Users/… on macOS vs C:\Users\… on Windows), so syncing
/// it cross-platform greys out all extensions on the receiving machine.
pub open spec fn sync_file_list() -> Seq<Seq<char>> {
    seq![
        "places.sqlite"@,
        "prefs.js"@,
        "zen-themes.json"@,
        "zen-keyboard-shortcuts.json"@,
        "zen-sessions.jsonlz4"@,
        "zen-live-folders.jsonlz4"@,
        "chrome/zen-themes.css"@,
        "containers.json"@,
    ]
}

/// Files never synced — machine-specific, sensitive, or too large.
pub open spec fn exclude_patterns() -> Seq<Seq<char>> {
    seq!["key4.db"@, "logins.json"@, "sessionstore.jsonlz4"@, "storage"@]
}

/// The texts of a sequence of string slices.
pub open spec fn str_views(v: Seq<&str>) -> Seq<Seq<char>> {
    v.map_values(|s: &str| s@)
}

/// The names of the files that a sync bundle may hold.
pub fn sync_files() -> (v: Vec<&'static str>)
    ensures
        str_views(v@) == sync_file_list(),
{
    let v = vec![
        "places.sqlite",
        "prefs.js",
        "zen-themes.json",
        "zen-keyboard-shortcuts.json",
        "zen-sessions.jsonlz4",
        "zen-live-folders.jsonlz4",
        "chrome/zen-themes.css",
        "containers.json",
    ];
    assert(str_views(v@) =~= sync_file_list());
    v
}

/// The never-synced name patterns.
pub fn exclude_pattern_list() -> (v: Vec<&'static str>)
    ensures
        str_views(v@) == exclude_patterns(),
{
    let v = vec!["key4.db", "logins.json", "sessionstore.jsonlz4", "storage"];
    assert(str_views(v@) =~= exclude_patterns());
    v
}

/// Whether `name` is one of the never-synced names or starts with one.
pub open spec fn excluded(name: Seq<char>) -> bool {
    exists|i: int|
        0 <= i < exclude_patterns().len() && (name == #[trigger] exclude_patterns()[i]
            || starts_with(name, exclude_patterns()[i]))
}

/// Whether `name` must never be synced.
pub fn is_excluded(name: &str) -> (b: bool)
    ensures
        b == excluded(name@),
{
    let pats = exclude_pattern_list();
    let n = crate::text::to_chars(name);
    let mut i: usize = 0;
    while i < pats.len()
        invariant
            i <= pats@.len(),
            str_views(pats@) == exclude_patterns(),
            n@ == name@,
            forall|j: int|
                0 <= j < i ==> !(name@ == #[trigger] exclude_patterns()[j] || starts_with(
                    name@,
                    exclude_patterns()[j],
                )),
        decreases pats@.len() - i,
    {
        let p = crate::text::to_chars(pats[i]);
        assert(p@ == exclude_patterns()[i as int]);
        if crate::text::chars_equal(n.as_slice(), p.as_slice()) || crate::text::chars_start_with(
            n.as_slice(),
            p.as_slice(),
        ) {
            return true;
        }
        i = i + 1;
    }
    false
}

/// The sync files among the first `k` that are present and not excluded,
/// in order.
pub open spec fn chosen_files(present: Seq<bool>, k: int) -> Seq<Seq<char>>
    decreases k,
{
    if k <= 0 {
        Seq::empty()
    } else {
        let rest = chosen_files(present, k - 1);
        let name = sync_file_list()[k - 1];
        if present[k - 1] && !excluded(name) {
            rest.push(name)
        } else {
            rest
        }
    }
}

/// The sync files are all different, and none is `extensions.json`.
proof fn lemma_sync_file_list_distinct()
    ensures
        forall|i: int, j: int|
            0 <= i < j < 8 ==> sync_file_list()[i] != sync_file_list()[j],
        forall|i: int| 0 <= i < 8 ==> sync_file_list()[i] != "extensions.json"@,
{
    reveal_strlit("places.sqlite");
    reveal_strlit("prefs.js");
    reveal_strlit("zen-themes.json");
    reveal_strlit("zen-keyboard-shortcuts.json");
    reveal_strlit("zen-sessions.jsonlz4");
    reveal_strlit("zen-live-folders.jsonlz4");
    reveal_strlit("chrome/zen-themes.css");
    reveal_strlit("containers.json");
    reveal_strlit("extensions.json");
    let l = sync_file_list();
    let e = "extensions.json"@;
    assert(l[0].len() == 13 && l[1].len() == 8 && l[2].len() == 15 && l[3].len() == 27);
    assert(l[4].len() == 20 && l[5].len() == 24 && l[6].len() == 21 && l[7].len() == 15);
    assert(e.len() == 15);
    assert(l[2][0] != l[7][0]);
    assert(l[2][0] != e[0]);
    assert(l[7][0] != e[0]);
    assert forall|i: int, j: int| 0 <= i < j < 8 implies l[i] != l[j] by {
        assert(i == 0 || i == 1 || i == 2 || i == 3 || i == 4 || i == 5 || i == 6);
        if i == 2 && j == 7 {
            assert(l[i][0] != l[j][0]);
        } else {
            assert(l[i].len() != l[j].len());
        }
    }
    assert forall|i: int| 0 <= i < 8 implies l[i] != e by {
        if i == 2 || i == 7 {
            assert(l[i][0] != e[0]);
        } else {
            assert(l[i].len() != e.len());
        }
    }
}

/// Every file chosen among the first `k` sync files is one of them.
proof fn lemma_chosen_files_from_list(present: Seq<bool>, k: int)
    requires
        0 <= k <= 8,
    ensures
        forall|i: int|
            0 <= i < chosen_files(present, k).len() ==> sync_file_list().take(k).contains(
                #[trigger] chosen_files(present, k)[i],
            ),
    decreases k,
{
    if k > 0 {
        lemma_chosen_files_from_list(present, k - 1);
        let rest = chosen_files(present, k - 1);
        assert forall|i: int| 0 <= i < chosen_files(present, k).len() implies sync_file_list().take(
            k,
        ).contains(#[trigger] chosen_files(present, k)[i]) by {
            if i < rest.len() {
                assert(chosen_files(present, k)[i] == rest[i]);
                let j = choose|j: int|
                    0 <= j < sync_file_list().take(k - 1).len() && #[trigger] sync_file_list().take(k - 1)[j]
                        == rest[i];
                assert(sync_file_list().take(k)[j] == rest[i]);
            } else {
                assert(chosen_files(present, k)[i] == sync_file_list()[k - 1]);
                assert(sync_file_list().take(k)[k - 1] == sync_file_list()[k - 1]);
            }
        }
    }
}

/// A bundle never holds a file twice, and never `extensions.json` (its
/// absolute XPI paths differ between machines): the files chosen among
/// the first `k` sync files are distinct sync files.
pub proof fn lemma_chosen_files_distinct(present: Seq<bool>, k: int)
    requires
        0 <= k <= 8,
    ensures
        forall|i: int, j: int|
            0 <= i < j < chosen_files(present, k).len() ==> chosen_files(present, k)[i]
                != chosen_files(present, k)[j],
        forall|i: int|
            0 <= i < chosen_files(present, k).len() ==> chosen_files(present, k)[i]
                != "extensions.json"@,
    decreases k,
{
    lemma_sync_file_list_distinct();
    if k > 0 {
        lemma_chosen_files_distinct(present, k - 1);
        lemma_chosen_files_from_list(present, k - 1);
        let rest = chosen_files(present, k - 1);
        let c = chosen_files(present, k);
        let name = sync_file_list()[k - 1];
        assert(!sync_file_list().take(k - 1).contains(name)) by {
            if sync_file_list().take(k - 1).contains(name) {
                let j = choose|j: int|
                    0 <= j < sync_file_list().take(k - 1).len() && #[trigger] sync_file_list().take(k - 1)[j]
                        == name;
                assert(sync_file_list()[j] == name);
            }
        }
        assert forall|i: int, j: int| 0 <= i < j < c.len() implies c[i] != c[j] by {
            if j < rest.len() {
                assert(c[i] == rest[i] && c[j] == rest[j]);
            } else {
                assert(c[i] == rest[i]);
                assert(c[j] == name);
                assert(sync_file_list().take(k - 1).contains(rest[i]));
            }
        }
        assert forall|i: int| 0 <= i < c.len() implies c[i] != "extensions.json"@ by {
            if i < rest.len() {
                assert(c[i] == rest[i]);
            } else {
                assert(c[i] == name);
            }
        }
    }
}

/// Every chosen file is a sync file among the first `k` that is present
/// and not excluded.
proof fn lemma_chosen_files_sources(present: Seq<bool>, k: int)
    requires
        0 <= k <= 8,
        present.len() == 8,
    ensures
        forall|j: int|
            0 <= j < chosen_files(present, k).len() ==> exists|i: int|
                0 <= i < k && #[trigger] chosen_files(present, k)[j] == sync_file_list()[i]
                    && present[i] && !excluded(sync_file_list()[i]),
    decreases k,
{
    if k > 0 {
        lemma_chosen_files_sources(present, k - 1);
        let rest = chosen_files(present, k - 1);
        assert forall|j: int| 0 <= j < chosen_files(present, k).len() implies exists|i: int|
            0 <= i < k && #[trigger] chosen_files(present, k)[j] == sync_file_list()[i]
                && present[i] && !excluded(sync_file_list()[i]) by {
            if j < rest.len() {
                assert(chosen_files(present, k)[j] == rest[j]);
                let i = choose|i: int|
                    0 <= i < k - 1 && #[trigger] rest[j] == sync_file_list()[i] && present[i]
                        && !excluded(sync_file_list()[i]);
                assert(chosen_files(present, k)[j] == sync_file_list()[i]);
            } else {
                assert(chosen_files(present, k)[j] == sync_file_list()[k - 1]);
            }
        }
    }
}

/// Every sync file among the first `k` that is present and not excluded
/// is chosen.
proof fn lemma_chosen_files_keep_present(present: Seq<bool>, k: int)
    requires
        0 <= k <= 8,
        present.len() == 8,
    ensures
        forall|i: int|
            0 <= i < k && present[i] && !excluded(#[trigger] sync_file_list()[i])
                ==> chosen_files(present, k).contains(sync_file_list()[i]),
    decreases k,
{
    if k > 0 {
        lemma_chosen_files_keep_present(present, k - 1);
        let rest = chosen_files(present, k - 1);
        assert forall|i: int|
            0 <= i < k && present[i] && !excluded(#[trigger] sync_file_list()[i]) implies chosen_files(
            present,
            k,
        ).contains(sync_file_list()[i]) by {
            if i < k - 1 {
                let j = choose|j: int| 0 <= j < rest.len() && rest[j] == sync_file_list()[i];
                assert(chosen_files(present, k)[j] == rest[j]);
            } else {
                let c = chosen_files(present, k);
                assert(c[c.len() - 1] == sync_file_list()[i]);
            }
        }
    }
}

/// The files a bundle holds are exactly the sync files that are present in
/// the profile folder and not excluded: each such file is chosen (none is
/// left out), and each chosen file is one of them.
pub proof fn lemma_chosen_files_exact(present: Seq<bool>)
    requires
        present.len() == 8,
    ensures
        forall|i: int|
            0 <= i < 8 ==> (chosen_files(present, 8).contains(#[trigger] sync_file_list()[i]) <==> (
            present[i] && !excluded(sync_file_list()[i]))),
{
    lemma_chosen_files_keep_present(present, 8);
    lemma_chosen_files_sources(present, 8);
    lemma_sync_file_list_distinct();
    assert forall|i: int|
        0 <= i < 8 && chosen_files(present, 8).contains(#[trigger] sync_file_list()[i]) implies (
    present[i] && !excluded(sync_file_list()[i])) by {
        let c = chosen_files(present, 8);
        let j = choose|j: int| 0 <= j < c.len() && c[j] == sync_file_list()[i];
        let i2 = choose|i2: int|
            0 <= i2 < 8 && #[trigger] c[j] == sync_file_list()[i2] && present[i2] && !excluded(
                sync_file_list()[i2],
            );
        if i2 != i {
            if i < i2 {
                assert(sync_file_list()[i] != sync_file_list()[i2]);
            } else {
                assert(sync_file_list()[i2] != sync_file_list()[i]);
            }
        }
    }
}

/// The names of the sync files that will be included in a bundle, given
/// which of them exist in the profile folder (`present[i]` for the i-th
/// sync file); an error when there are none.
pub fn select_sync_files(present: &Vec<bool>) -> (r: Result<Vec<String>, String>)
    requires
        present@.len() == sync_file_list().len(),
    ensures
        chosen_files(present@, 8).len() == 0 ==> (r matches Err(m) && m@
            == "No sync files found in profile folder"@),
        chosen_files(present@, 8).len() > 0 ==> (r matches Ok(v) && v@.map_values(
            |s: String| s@,
        ) == chosen_files(present@, 8)),
        r matches Ok(v) ==> forall|i: int|
            0 <= i < 8 ==> (v@.map_values(|s: String| s@).contains(
                #[trigger] sync_file_list()[i],
            ) <==> (present@[i] && !excluded(sync_file_list()[i]))),
{
    proof {
        lemma_chosen_files_exact(present@);
    }
    let names = sync_files();
    let mut out: Vec<String> = Vec::new();
    let mut i: usize = 0;
    while i < names.len()
        invariant
            i <= names@.len(),
            names@.len() == 8,
            present@.len() == 8,
            str_views(names@) == sync_file_list(),
            out@.map_values(|s: String| s@) == chosen_files(present@, i as int),
        decreases names@.len() - i,
    {
        assert(names@[i as int]@ == sync_file_list()[i as int]);
        if present[i] && !is_excluded(names[i]) {
            let ghost before = out@;
            let mut s = String::new();
            crate::text::push_str(&mut s, names[i]);
            out.push(s);
            assert(out@.map_values(|s: String| s@) =~= before.map_values(|s: String| s@).push(
                sync_file_list()[i as int],
            ));
        }
        i = i + 1;
    }
    if out.len() == 0 {
        let mut m = String::new();
        crate::text::push_str(&mut m, "No sync files found in profile folder");
        return Err(m);
    }
    Ok(out)
}

/// The `Default=` values of `profiles.ini` lines that stand in an
/// `[Install…]` section (one whose header, lowercased, starts with
/// `[install`), in order; `in_install` tells whether the lines start
/// inside such a section. Lines are trimmed first.
pub open spec fn install_defaults(ls: Seq<Seq<char>>, in_install: bool) -> Seq<Seq<char>> {
    install_defaults_with(ls, in_install, false)
}

/// `install_defaults` for ASCII lines, whose lowercase form is their ASCII
/// lowercase form.
pub open spec fn install_defaults_ascii(ls: Seq<Seq<char>>, in_install: bool) -> Seq<Seq<char>> {
    install_defaults_with(ls, in_install, true)
}

/// `install_defaults`, lowercasing headers as ASCII (`ascii`) or as Unicode.
pub open spec fn install_defaults_with(ls: Seq<Seq<char>>, in_install: bool, ascii: bool) -> Seq<
    Seq<char>,
>
    decreases ls.len(),
{
    if ls.len() == 0 {
        Seq::empty()
    } else {
        let line = trim(ls[0]);
        let lower = if ascii {
            crate::text::ascii_lowercase(line)
        } else {
            lowercase(line)
        };
        if starts_with(line, "["@) {
            install_defaults_with(ls.drop_first(), starts_with(lower, "[install"@), ascii)
        } else if in_install && starts_with(line, "Default="@) {
            seq![line.skip(8)] + install_defaults_with(ls.drop_first(), in_install, ascii)
        } else {
            install_defaults_with(ls.drop_first(), in_install, ascii)
        }
    }
}

/// The candidate profile paths that `profiles.ini` records, relative to
/// the Zen data folder, in the order they appear: the `Default=` values of
/// the `[Install…]` sections, which Zen writes each launch for the profile
/// it will open next. The first one that is a folder is the active profile.
pub fn ini_install_defaults(content: &str) -> (r: Vec<Vec<char>>)
    ensures
        crate::text::views(r@) == install_defaults(lines(content@), false),
        crate::text::is_ascii_text(content@) ==> crate::text::views(r@) == install_defaults_ascii(
            lines(content@),
            false,
        ),
{
    let chars = crate::text::to_chars(content);
    let ls = crate::text::split_lines(chars.as_slice());
    let ghost all = crate::text::views(ls@);
    let mut out: Vec<Vec<char>> = Vec::new();
    let mut in_install = false;
    let open_bracket = crate::text::to_chars("[");
    let install = crate::text::to_chars("[install");
    let default_key = crate::text::to_chars("Default=");
    let mut i: usize = 0;
    assert(all.skip(0) == all);
    proof {
        reveal_strlit("Default=");
    }
    assert(default_key@.len() == 8);
    let ghost ascii = crate::text::is_ascii_text(content@);
    proof {
        if ascii {
            crate::text::lemma_lines_ascii(content@);
        }
    }
    while i < ls.len()
        invariant
            i <= ls@.len(),
            all == crate::text::views(ls@),
            open_bracket@ == "["@,
            install@ == "[install"@,
            default_key@ == "Default="@,
            default_key@.len() == 8,
            install_defaults(all, false) == crate::text::views(out@) + install_defaults(
                all.skip(i as int),
                in_install,
            ),
            ascii == crate::text::is_ascii_text(content@),
            ascii ==> all == lines(content@),
            ascii ==> forall|k: int|
                0 <= k < all.len() ==> crate::text::is_ascii_text(#[trigger] all[k]),
            ascii ==> install_defaults_ascii(all, false) == crate::text::views(out@)
                + install_defaults_ascii(all.skip(i as int), in_install),
        decreases ls@.len() - i,
    {
        let ghost rest = all.skip(i as int);
        assert(rest[0] == ls@[i as int]@);
        assert(rest.drop_first() == all.skip(i + 1));
        let line = crate::text::chars_trim(ls[i].as_slice());
        proof {
            if ascii {
                crate::text::lemma_trim_ascii(all[i as int]);
            }
        }
        if crate::text::chars_start_with(line.as_slice(), open_bracket.as_slice()) {
            let text = crate::text::from_chars(line.as_slice());
            let lower = crate::text::to_lowercase(text.as_str());
            let lower_chars = crate::text::to_chars(lower.as_str());
            in_install = crate::text::chars_start_with(lower_chars.as_slice(), install.as_slice());
        } else if in_install && crate::text::chars_start_with(
            line.as_slice(),
            default_key.as_slice(),
        ) {
            let value = crate::text::copy_range(line.as_slice(), 8, line.len());
            let ghost before = out@;
            out.push(value);
            assert(crate::text::views(out@) =~= crate::text::views(before).push(value@));
            assert(crate::text::views(out@) + install_defaults(all.skip(i + 1), in_install)
                =~= crate::text::views(before) + install_defaults(rest, in_install));
            assert(crate::text::views(out@) + install_defaults_ascii(all.skip(i + 1), in_install)
                =~= crate::text::views(before) + install_defaults_ascii(rest, in_install));
        }
        i = i + 1;
    }
    assert(install_defaults(all.skip(ls@.len() as int), in_install) == Seq::<Seq<char>>::empty());
    assert(install_defaults_ascii(all.skip(ls@.len() as int), in_install) == Seq::<
        Seq<char>,
    >::empty());
    assert(crate::text::views(out@) + Seq::<Seq<char>>::empty() =~= crate::text::views(out@));
    out
}

/// Whether a profile folder name marks a release profile: Zen names its
/// active profile either "xxxxxxxx.Default (release)" or
/// "xxxxxxxx.default-release" depending on version/platform, so any folder
/// whose name contains "release" (case-insensitive) matches.
pub fn is_release_profile_name(name: &str) -> (b: bool)
    ensures
        b == crate::text::contains(lowercase(name@), "release"@),
        crate::text::is_ascii_text(name@) ==> b == crate::text::contains(
            crate::text::ascii_lowercase(name@),
            "release"@,
        ),
{
    let lower = crate::text::to_lowercase(name);
    let l = crate::text::to_chars(lower.as_str());
    let release = crate::text::to_chars("release");
    crate::text::chars_contain(l.as_slice(), release.as_slice())
}

} // verus!
