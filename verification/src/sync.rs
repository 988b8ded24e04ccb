//! The profile bundle's text handling: which `prefs.js` lines are
//! machine-local update state (stripped before a push, kept on a pull),
//! the key texts, and the names of files around a pull.
use vstd::prelude::*;

use crate::text::{
    join, lines, lines_state, no_newline, starts_with, strip_cr, strip_crs, text_le, trim_end,
    trim_start,
};

pub use crate::calendar::{chrono_secs_to_iso, epoch_to_ymd_hms};

use base64::Engine;

verus! {

/// The bundle format version that this library writes and reads.
pub const BUNDLE_VERSION: u8 = 1;

/// Whether a `prefs.js` line sets machine-local update state: after
/// leading whitespace it starts with `user_pref("app.update.` (Firefox
/// update timers and state) or `user_pref("zen.updates.` (Zen's own
/// version tracking).
pub open spec fn is_update_pref(line: Seq<char>) -> bool {
    starts_with(trim_start(line), "user_pref(\"app.update."@) || starts_with(
        trim_start(line),
        "user_pref(\"zen.updates."@,
    )
}

/// The lines of `ls` that set update state (`update == true`) or the
/// ones that do not (`update == false`), in order.
pub open spec fn select_lines(ls: Seq<Seq<char>>, update: bool) -> Seq<Seq<char>>
    decreases ls.len(),
{
    if ls.len() == 0 {
        Seq::empty()
    } else {
        let rest = select_lines(ls.drop_last(), update);
        if is_update_pref(ls.last()) == update {
            rest.push(ls.last())
        } else {
            rest
        }
    }
}

/// Selecting lines keeps exactly the lines of the chosen kind, in order:
/// stripped prefs hold no update-state line, and the local lines kept on a
/// pull are all update state.
pub proof fn lemma_select_lines_kind(ls: Seq<Seq<char>>, update: bool)
    ensures
        forall|i: int|
            0 <= i < select_lines(ls, update).len() ==> is_update_pref(
                #[trigger] select_lines(ls, update)[i],
            ) == update,
        select_lines(ls, update).len() + select_lines(ls, !update).len() == ls.len(),
    decreases ls.len(),
{
    if ls.len() > 0 {
        lemma_select_lines_kind(ls.drop_last(), update);
    }
}

/// `prefs.js` without its update-state lines, lines joined by `\n`.
pub open spec fn stripped_prefs(content: Seq<char>) -> Seq<char> {
    join(select_lines(lines(content), false), "\n"@)
}

/// Whether no line of `s`, read back with `str::lines`, sets update state.
pub open spec fn no_update_lines(s: Seq<char>) -> bool {
    forall|i: int| 0 <= i < lines(s).len() ==> !is_update_pref(#[trigger] lines(s)[i])
}

/// A carriage return at the end of a line does not change whether it sets
/// update state.
pub proof fn lemma_update_pref_strip_cr(l: Seq<char>)
    ensures
        is_update_pref(strip_cr(l)) == is_update_pref(l),
{
    reveal_strlit("user_pref(\"app.update.");
    reveal_strlit("user_pref(\"zen.updates.");
    if l.len() > 0 && l.last() == '\r' {
        let y = l.drop_last();
        assert(y.push('\r') =~= l);
        crate::text::lemma_trim_start_push(y, '\r');
        if trim_start(y).len() > 0 {
            crate::text::lemma_starts_with_push(trim_start(y), '\r', "user_pref(\"app.update."@);
            crate::text::lemma_starts_with_push(trim_start(y), '\r', "user_pref(\"zen.updates."@);
        } else {
            assert(crate::text::is_whitespace(seq!['\r'][0]));
            assert(seq!['\r'].drop_first() =~= Seq::<char>::empty());
            assert(trim_start(Seq::<char>::empty()) == Seq::<char>::empty());
        }
    }
}

/// A line whose extension sets no update state sets none itself.
pub proof fn lemma_update_pref_prefix(c: Seq<char>, w: char)
    ensures
        is_update_pref(c) ==> is_update_pref(c.push(w)),
{
    crate::text::lemma_trim_start_push(c, w);
    if trim_start(c).len() > 0 {
        crate::text::lemma_starts_with_push(trim_start(c), w, "user_pref(\"app.update."@);
        crate::text::lemma_starts_with_push(trim_start(c), w, "user_pref(\"zen.updates."@);
    } else {
        reveal_strlit("user_pref(\"app.update.");
        reveal_strlit("user_pref(\"zen.updates.");
    }
}

/// Dropping a final whitespace character adds no update-state line.
proof fn lemma_no_update_lines_drop_whitespace(s: Seq<char>)
    requires
        s.len() > 0,
        crate::text::is_whitespace(s.last()),
        no_update_lines(s),
    ensures
        no_update_lines(s.drop_last()),
{
    let (d, c) = lines_state(s.drop_last());
    if s.last() == '\n' {
        assert(lines(s) == d.push(strip_cr(c)));
        assert(!is_update_pref(lines(s)[d.len() as int]));
        lemma_update_pref_strip_cr(c);
        assert forall|i: int| 0 <= i < lines(s.drop_last()).len() implies !is_update_pref(
            #[trigger] lines(s.drop_last())[i],
        ) by {
            if i < d.len() {
                assert(lines(s)[i] == d[i]);
            }
        }
    } else {
        assert(lines(s) == d.push(c.push(s.last())));
        assert(!is_update_pref(lines(s)[d.len() as int]));
        lemma_update_pref_prefix(c, s.last());
        assert forall|i: int| 0 <= i < lines(s.drop_last()).len() implies !is_update_pref(
            #[trigger] lines(s.drop_last())[i],
        ) by {
            if i < d.len() {
                assert(lines(s)[i] == d[i]);
            }
        }
    }
}

/// Trimming trailing whitespace and ending with a newline adds no
/// update-state line.
proof fn lemma_no_update_lines_trim_end(s: Seq<char>)
    requires
        no_update_lines(s),
    ensures
        no_update_lines(trim_end(s).push('\n')),
    decreases s.len(),
{
    crate::text::lemma_lines_state_newline(trim_end(s));
    if s.len() == 0 {
        reveal_strlit("user_pref(\"app.update.");
        reveal_strlit("user_pref(\"zen.updates.");
        assert(lines(trim_end(s).push('\n')) == seq![strip_cr(Seq::<char>::empty())]);
        assert(trim_start(strip_cr(Seq::<char>::empty())) =~= Seq::<char>::empty());
    } else if crate::text::is_whitespace(s.last()) {
        lemma_no_update_lines_drop_whitespace(s);
        lemma_no_update_lines_trim_end(s.drop_last());
    } else {
        let (d, c) = lines_state(s);
        assert(c.len() > 0);
        assert(lines(s) == d.push(c));
        assert(!is_update_pref(lines(s)[d.len() as int]));
        lemma_update_pref_strip_cr(c);
        assert forall|i: int| 0 <= i < lines(trim_end(s).push('\n')).len() implies !is_update_pref(
            #[trigger] lines(trim_end(s).push('\n'))[i],
        ) by {
            if i < d.len() {
                assert(lines(s)[i] == d[i]);
            }
        }
    }
}

/// Selecting from two runs of lines selects from each in turn.
pub proof fn lemma_select_lines_append(x: Seq<Seq<char>>, y: Seq<Seq<char>>, update: bool)
    ensures
        select_lines(x + y, update) == select_lines(x, update) + select_lines(y, update),
    decreases y.len(),
{
    if y.len() == 0 {
        assert(x + y =~= x);
        assert(select_lines(x, update) + select_lines(y, update) =~= select_lines(x, update));
    } else {
        lemma_select_lines_append(x, y.drop_last(), update);
        assert((x + y).drop_last() =~= x + y.drop_last());
        assert((x + y).last() == y.last());
        if is_update_pref(y.last()) == update {
            assert(select_lines(x, update) + select_lines(y, update) =~= (select_lines(x, update)
                + select_lines(y.drop_last(), update)).push(y.last()));
        }
    }
}

/// Selecting the lines of one kind from lines all of that kind keeps
/// them all; from lines all of the other kind, none.
pub proof fn lemma_select_lines_uniform(z: Seq<Seq<char>>, update: bool)
    ensures
        (forall|i: int| 0 <= i < z.len() ==> is_update_pref(#[trigger] z[i]) == update)
            ==> select_lines(z, update) == z,
        (forall|i: int| 0 <= i < z.len() ==> is_update_pref(#[trigger] z[i]) != update)
            ==> select_lines(z, update) == Seq::<Seq<char>>::empty(),
    decreases z.len(),
{
    if z.len() > 0 {
        lemma_select_lines_uniform(z.drop_last(), update);
        if forall|i: int| 0 <= i < z.len() ==> is_update_pref(#[trigger] z[i]) == update {
            assert(forall|i: int|
                0 <= i < z.drop_last().len() ==> is_update_pref(#[trigger] z.drop_last()[i])
                    == update) by {
                assert forall|i: int| 0 <= i < z.drop_last().len() implies is_update_pref(
                    #[trigger] z.drop_last()[i],
                ) == update by {
                    assert(z.drop_last()[i] == z[i]);
                }
            }
            assert(is_update_pref(z[z.len() - 1]) == update);
            assert(z.drop_last().push(z.last()) =~= z);
        }
        if forall|i: int| 0 <= i < z.len() ==> is_update_pref(#[trigger] z[i]) != update {
            assert forall|i: int| 0 <= i < z.drop_last().len() implies is_update_pref(
                #[trigger] z.drop_last()[i],
            ) != update by {
                assert(z.drop_last()[i] == z[i]);
            }
            assert(is_update_pref(z[z.len() - 1]) != update);
        }
    }
}

/// Selected lines are lines of the input, so they hold no newline when
/// the input's lines hold none.
proof fn lemma_select_lines_no_newline(ls: Seq<Seq<char>>, update: bool)
    requires
        forall|i: int| 0 <= i < ls.len() ==> no_newline(#[trigger] ls[i]),
    ensures
        forall|i: int|
            0 <= i < select_lines(ls, update).len() ==> no_newline(
                #[trigger] select_lines(ls, update)[i],
            ),
    decreases ls.len(),
{
    if ls.len() > 0 {
        assert forall|i: int| 0 <= i < ls.drop_last().len() implies no_newline(
            #[trigger] ls.drop_last()[i],
        ) by {
            assert(ls.drop_last()[i] == ls[i]);
        }
        lemma_select_lines_no_newline(ls.drop_last(), update);
        assert(no_newline(ls[ls.len() - 1]));
        let rest = select_lines(ls.drop_last(), update);
        assert forall|i: int|
            0 <= i < select_lines(ls, update).len() implies no_newline(
            #[trigger] select_lines(ls, update)[i],
        ) by {
            if i < rest.len() {
                assert(select_lines(ls, update)[i] == rest[i]);
            }
        }
    }
}

/// A pushed `prefs.js` holds no update-state line: read back line by
/// line, none of its lines sets update state.
pub proof fn lemma_stripped_prefs_hold_no_update_line(content: Seq<char>)
    ensures
        no_update_lines(stripped_prefs(content)),
{
    let k = select_lines(lines(content), false);
    reveal_strlit("\n");
    assert("\n"@ =~= seq!['\n']);
    lemma_select_lines_kind(lines(content), false);
    if k.len() > 0 {
        crate::text::lemma_lines_no_newline(content);
        lemma_select_lines_no_newline(lines(content), false);
        crate::text::lemma_lines_state_join(Seq::<char>::empty(), k);
        assert(Seq::<char>::empty() + join(k, seq!['\n']) =~= join(k, seq!['\n']));
        let d = strip_crs(k.drop_last());
        assert(lines_state(Seq::<char>::empty()).0 + d =~= d);
        assert forall|i: int|
            0 <= i < lines(stripped_prefs(content)).len() implies !is_update_pref(
            #[trigger] lines(stripped_prefs(content))[i],
        ) by {
            if i < d.len() {
                assert(lines(stripped_prefs(content))[i] == strip_cr(k[i]));
                lemma_update_pref_strip_cr(k[i]);
            } else {
                assert(lines(stripped_prefs(content))[i] == k[k.len() - 1]);
            }
        }
    }
}

/// A pulled `prefs.js`, read back line by line, is the pulled text's lines
/// (its trailing whitespace dropped) followed by this machine's update-state
/// lines.
pub proof fn lemma_merged_prefs_lines(synced: Seq<char>, local: Seq<char>)
    requires
        merged_prefs(synced, local) is Some,
    ensures
        lines(merged_prefs(synced, local)->0) == lines(trim_end(synced).push('\n')) + strip_crs(
            select_lines(lines(local), true),
        ),
{
    let k = select_lines(lines(local), true);
    let p = trim_end(synced).push('\n');
    reveal_strlit("\n");
    assert("\n"@ =~= seq!['\n']);
    crate::text::lemma_lines_no_newline(local);
    lemma_select_lines_no_newline(lines(local), true);
    crate::text::lemma_lines_state_newline(trim_end(synced));
    crate::text::lemma_lines_state_join(p, k);
    let q = p + join(k, seq!['\n']);
    assert(merged_prefs(synced, local)->0 =~= q.push('\n'));
    crate::text::lemma_lines_state_newline(q);
    assert(strip_crs(k) =~= strip_crs(k.drop_last()).push(strip_cr(k.last())));
    assert(lines(merged_prefs(synced, local)->0) =~= lines(p) + strip_crs(k));
}

/// What a pull writes into `prefs.js`, built from a pushed `prefs.js`,
/// sets exactly this machine's update state: its update-state lines are
/// the local ones, in order, and none of the pushing machine's.
pub proof fn lemma_pull_keeps_only_local_update_state(pushed: Seq<char>, local: Seq<char>)
    requires
        merged_prefs(stripped_prefs(pushed), local) is Some,
    ensures
        select_lines(lines(merged_prefs(stripped_prefs(pushed), local)->0), true) == strip_crs(
            select_lines(lines(local), true),
        ),
{
    let synced = stripped_prefs(pushed);
    let k = select_lines(lines(local), true);
    let head = lines(trim_end(synced).push('\n'));
    lemma_merged_prefs_lines(synced, local);
    lemma_stripped_prefs_hold_no_update_line(pushed);
    lemma_no_update_lines_trim_end(synced);
    lemma_select_lines_append(head, strip_crs(k), true);
    lemma_select_lines_uniform(head, true);
    lemma_select_lines_kind(lines(local), true);
    assert forall|i: int| 0 <= i < strip_crs(k).len() implies is_update_pref(
        #[trigger] strip_crs(k)[i],
    ) == true by {
        lemma_update_pref_strip_cr(k[i]);
    }
    lemma_select_lines_uniform(strip_crs(k), true);
    assert(Seq::<Seq<char>>::empty() + strip_crs(k) =~= strip_crs(k));
}

/// Whether `line` sets update state.
pub fn is_update_pref_line(line: &[char]) -> (b: bool)
    ensures
        b == is_update_pref(line@),
{
    let t = crate::text::chars_trim_start(line);
    let app = crate::text::to_chars("user_pref(\"app.update.");
    let zen = crate::text::to_chars("user_pref(\"zen.updates.");
    crate::text::chars_start_with(t.as_slice(), app.as_slice()) || crate::text::chars_start_with(
        t.as_slice(),
        zen.as_slice(),
    )
}

/// The lines of `ls` that set update state, or the ones that do not.
pub fn select_pref_lines(ls: &Vec<Vec<char>>, update: bool) -> (r: Vec<Vec<char>>)
    ensures
        crate::text::views(r@) == select_lines(crate::text::views(ls@), update),
{
    let ghost all = crate::text::views(ls@);
    let mut r: Vec<Vec<char>> = Vec::new();
    let mut i: usize = 0;
    while i < ls.len()
        invariant
            i <= ls@.len(),
            all == crate::text::views(ls@),
            crate::text::views(r@) == select_lines(all.take(i as int), update),
        decreases ls@.len() - i,
    {
        assert(all.take(i + 1).drop_last() == all.take(i as int));
        assert(all.take(i + 1).last() == ls@[i as int]@);
        if is_update_pref_line(ls[i].as_slice()) == update {
            let line = crate::text::copy_range(ls[i].as_slice(), 0, ls[i].len());
            assert(line@ =~= ls@[i as int]@);
            let ghost before = r@;
            r.push(line);
            assert(crate::text::views(r@) =~= crate::text::views(before).push(ls@[i as int]@));
        }
        i = i + 1;
    }
    assert(all.take(ls@.len() as int) == all);
    r
}

/// Strip machine-local update state from prefs.js before syncing.
/// Both `app.update.*` (Firefox update timers/state) and `zen.updates.*`
/// (Zen's own version tracking) must be excluded — syncing them across machines
/// causes the receiving machine to show "Update Ready" or trigger an immediate
/// update check because the version recorded in prefs doesn't match the binary.
pub fn strip_update_prefs(content: &str) -> (r: String)
    ensures
        r@ == stripped_prefs(content@),
{
    let chars = crate::text::to_chars(content);
    let ls = crate::text::split_lines(chars.as_slice());
    let kept = select_pref_lines(&ls, false);
    let nl = crate::text::to_chars("\n");
    let joined = crate::text::join_lines(&kept, nl.as_slice());
    crate::text::from_chars(joined.as_slice())
}

/// The `prefs.js` to write on a pull when the file on this machine holds
/// update-state lines: the pulled text without trailing whitespace, a
/// newline, the local update lines joined by `\n`, and a final newline.
/// `None` when there are no local update lines (the pulled bytes are
/// written as they are).
pub open spec fn merged_prefs(synced: Seq<char>, local: Seq<char>) -> Option<Seq<char>> {
    let keep = select_lines(lines(local), true);
    if keep.len() == 0 {
        None
    } else {
        Some(trim_end(synced) + "\n"@ + join(keep, "\n"@) + "\n"@)
    }
}

/// For prefs.js: preserve the local machine's update lines so that
/// machine-local Zen update state (downloaded update path, dialog shown flag)
/// isn't erased when the synced prefs.js is applied. The incoming bundle
/// already has them stripped on push; appending the local lines
/// ensures Zen doesn't re-prompt for an update the user already accepted.
pub fn merge_local_update_prefs(synced: &str, local: &str) -> (r: Option<String>)
    ensures
        match (r, merged_prefs(synced@, local@)) {
            (Some(t), Some(u)) => t@ == u,
            (None, None) => true,
            _ => false,
        },
{
    let local_chars = crate::text::to_chars(local);
    let ls = crate::text::split_lines(local_chars.as_slice());
    let keep = select_pref_lines(&ls, true);
    if keep.len() == 0 {
        return None;
    }
    let synced_chars = crate::text::to_chars(synced);
    let head = crate::text::chars_trim_end(synced_chars.as_slice());
    let nl = crate::text::to_chars("\n");
    let body = crate::text::join_lines(&keep, nl.as_slice());
    let mut out = crate::text::from_chars(head.as_slice());
    crate::text::push_str(&mut out, "\n");
    crate::text::push_chars(&mut out, body.as_slice());
    crate::text::push_str(&mut out, "\n");
    Some(out)
}

/// The hex form of the 32-byte encryption key (lowercase, two digits a byte),
/// used as the PBKDF2 password for GitHub sync.
pub fn hex_key(key: &[u8; 32]) -> (s: String)
    ensures
        s@ == crate::text::hex_lower(key@),
{
    crate::text::hex_encode(key.as_slice(), false)
}

/// The key text names the key: two keys have the same hex text exactly
/// when they are the same key.
pub proof fn lemma_hex_key_injective(k1: [u8; 32], k2: [u8; 32])
    ensures
        crate::text::hex_lower(k1@) == crate::text::hex_lower(k2@) <==> k1@ == k2@,
{
    crate::text::lemma_hex_lower_injective(k1@, k2@);
}

/// The key half of a manual sync code: three bytes as six uppercase hex
/// digits (e.g. "A3F9B2").
pub fn sync_key_hex(raw: &[u8; 3]) -> (s: String)
    ensures
        s@ == crate::text::hex_upper(raw@),
        s@.len() == 6,
{
    crate::text::hex_encode(raw.as_slice(), true)
}

/// Accepts a bundle of format version 1; for any other version, the error
/// "Unsupported bundle version {v} — {advice}".
pub fn check_bundle_version(version: u8, advice: &str) -> (r: Result<(), String>)
    ensures
        version == BUNDLE_VERSION ==> r is Ok,
        version != BUNDLE_VERSION ==> (r matches Err(m) && m@ == "Unsupported bundle version "@
            + crate::text::decimal(version as nat) + " — "@ + advice@),
{
    if version == BUNDLE_VERSION {
        return Ok(());
    }
    let mut m = String::new();
    crate::text::push_str(&mut m, "Unsupported bundle version ");
    let v = crate::text::u64_to_decimal(version as u64);
    crate::text::push_str(&mut m, v.as_str());
    crate::text::push_str(&mut m, " — ");
    crate::text::push_str(&mut m, advice);
    Err(m)
}

/// The files to remove after writing the SQLite database `name`: its
/// stale `-wal` and `-shm` files (a leftover WAL from the previous
/// session could be applied on open and overwrite synced pages). `None`
/// for files that are not `.sqlite` databases.
pub fn sqlite_sidecars(name: &str) -> (r: Option<(String, String)>)
    ensures
        crate::text::ends_with(name@, ".sqlite"@) ==> (r matches Some((w, s)) && w@ == name@
            + "-wal"@ && s@ == name@ + "-shm"@),
        !crate::text::ends_with(name@, ".sqlite"@) ==> r is None,
{
    let n = crate::text::to_chars(name);
    let ext = crate::text::to_chars(".sqlite");
    if !crate::text::chars_end_with(n.as_slice(), ext.as_slice()) {
        return None;
    }
    let wal = crate::github::message(name, "-wal");
    let shm = crate::github::message(name, "-shm");
    Some((wal, shm))
}

/// The character of the standard base64 alphabet for `v < 64`:
/// `A`–`Z`, `a`–`z`, `0`–`9`, `+`, `/`.
pub open spec fn base64_char(v: int) -> char {
    if v < 26 {
        (('A' as u32) + v) as char
    } else if v < 52 {
        (('a' as u32) + (v - 26)) as char
    } else if v < 62 {
        (('0' as u32) + (v - 52)) as char
    } else if v == 62 {
        '+'
    } else {
        '/'
    }
}

/// The standard (padded) base64 text of `bytes` (RFC 4648): each group of
/// three bytes gives four characters of six bits each, and a final group
/// of one or two bytes is padded with `=` to four characters.
pub open spec fn base64_standard_encode(bytes: Seq<u8>) -> Seq<char>
    decreases bytes.len(),
{
    if bytes.len() == 0 {
        Seq::empty()
    } else if bytes.len() == 1 {
        let b0 = bytes[0] as int;
        seq![base64_char(b0 / 4), base64_char((b0 % 4) * 16), '=', '=']
    } else if bytes.len() == 2 {
        let b0 = bytes[0] as int;
        let b1 = bytes[1] as int;
        seq![
            base64_char(b0 / 4),
            base64_char((b0 % 4) * 16 + b1 / 16),
            base64_char((b1 % 16) * 4),
            '=',
        ]
    } else {
        let b0 = bytes[0] as int;
        let b1 = bytes[1] as int;
        let b2 = bytes[2] as int;
        seq![
            base64_char(b0 / 4),
            base64_char((b0 % 4) * 16 + b1 / 16),
            base64_char((b1 % 16) * 4 + b2 / 64),
            base64_char(b2 % 64),
        ] + base64_standard_encode(bytes.skip(3))
    }
}

/// The bytes that a standard base64 text stands for, if it is valid.
pub uninterp spec fn base64_standard_decode(text: Seq<char>) -> Option<Seq<u8>>;

/// `base64::engine::general_purpose::STANDARD.encode`. Claimed: the text is
/// the standard padded encoding, and decoding it gives the bytes back.
#[verifier::external_body]
fn base64_encode(bytes: &[u8]) -> (s: String)
    ensures
        s@ == base64_standard_encode(bytes@),
        base64_standard_decode(s@) == Some(bytes@),
{
    base64::engine::general_purpose::STANDARD.encode(bytes)
}

/// `base64::engine::general_purpose::STANDARD.decode`; the error as its
/// text. Claimed: it succeeds exactly on valid text, with the named bytes.
#[verifier::external_body]
fn base64_decode(text: &str) -> (r: Result<Vec<u8>, String>)
    ensures
        r is Ok <==> base64_standard_decode(text@) is Some,
        r matches Ok(b) ==> base64_standard_decode(text@) == Some(b@),
{
    match base64::engine::general_purpose::STANDARD.decode(text) {
        Ok(b) => Ok(b),
        Err(e) => Err(e.to_string()),
    }
}

/// A profile file's contents as a bundle holds them: base64, so that they
/// survive the JSON round trip. Decoding the text gives the bytes back.
pub fn encode_bundle_file(bytes: &[u8]) -> (s: String)
    ensures
        s@ == base64_standard_encode(bytes@),
        base64_standard_decode(s@) == Some(bytes@),
{
    base64_encode(bytes)
}

/// A bundle file's bytes from its base64 text; the error names the file.
pub fn decode_bundle_file(name: &str, text: &str) -> (r: Result<Vec<u8>, String>)
    ensures
        r is Ok <==> base64_standard_decode(text@) is Some,
        r matches Ok(b) ==> base64_standard_decode(text@) == Some(b@),
        r matches Err(m) ==> crate::text::starts_with(m@, "Failed to decode "@ + name@ + ": "@),
{
    match base64_decode(text) {
        Ok(b) => Ok(b),
        Err(e) => {
            let mut m = crate::github::message("Failed to decode ", name);
            crate::text::push_str(&mut m, ": ");
            let ghost head = m@;
            crate::text::push_str(&mut m, e.as_str());
            assert(m@.take(head.len() as int) =~= head);
            Err(m)
        },
    }
}

/// The bytes that a bundle holds for `prefs.js`: its text without the
/// update-state lines, as UTF-8.
pub fn prefs_bundle_bytes(content: &str) -> (b: Vec<u8>)
    ensures
        b@ == vstd::utf8::encode_utf8(stripped_prefs(content@)),
{
    let stripped = strip_update_prefs(content);
    vstd::slice::slice_to_vec(stripped.as_str().as_bytes())
}

/// The error when a profile folder holds none of the sync files.
pub fn require_sync_files(count: usize) -> (r: Result<(), String>)
    ensures
        count > 0 ==> r is Ok,
        count == 0 ==> (r matches Err(m) && m@ == "No sync files found in the Zen profile folder"@),
{
    if count > 0 {
        return Ok(());
    }
    let mut m = String::new();
    crate::text::push_str(&mut m, "No sync files found in the Zen profile folder");
    Err(m)
}

/// The folder, inside the profile, that a pull copies the files it
/// replaces into: `zync-backup-{ts}`.
pub fn backup_dir_name(ts: u64) -> (s: String)
    ensures
        s@ == "zync-backup-"@ + crate::text::decimal(ts as nat),
{
    let d = crate::text::u64_to_decimal(ts);
    crate::github::message("zync-backup-", d.as_str())
}

/// Whether `names` are in ascending order (the order of `String`'s `Ord`).
pub open spec fn texts_sorted(names: Seq<String>) -> bool {
    forall|i: int, j: int| 0 <= i < j < names.len() ==> text_le(names[i]@, names[j]@)
}

/// Where `name` goes among the sorted `names`: after every name that comes
/// no later than it, before all the others.
fn insert_position(names: &Vec<String>, name: &String) -> (p: usize)
    requires
        texts_sorted(names@),
    ensures
        p <= names@.len(),
        forall|i: int| 0 <= i < p ==> text_le(#[trigger] names@[i]@, name@),
        forall|i: int| p <= i < names@.len() ==> text_le(name@, #[trigger] names@[i]@),
{
    let key = crate::text::to_chars(name.as_str());
    let mut p: usize = 0;
    while p < names.len()
        invariant
            p <= names@.len(),
            key@ == name@,
            texts_sorted(names@),
            forall|i: int| 0 <= i < p ==> text_le(#[trigger] names@[i]@, name@),
        decreases names@.len() - p,
    {
        let here = crate::text::to_chars(names[p].as_str());
        if !crate::text::chars_le(here.as_slice(), key.as_slice()) {
            proof {
                crate::text::lemma_text_le_total(names@[p as int]@, name@);
                assert forall|i: int| p <= i < names@.len() implies text_le(
                    name@,
                    #[trigger] names@[i]@,
                ) by {
                    if i > p {
                        assert(text_le(names@[p as int]@, names@[i]@));
                        crate::text::lemma_text_le_transitive(
                            name@,
                            names@[p as int]@,
                            names@[i]@,
                        );
                    }
                }
            }
            return p;
        }
        p = p + 1;
    }
    p
}

/// The names of the files a pull wrote, in ascending order: the same
/// names, each as often as before, sorted.
pub fn sort_file_names(names: Vec<String>) -> (r: Vec<String>)
    ensures
        r@.to_multiset() == names@.to_multiset(),
        texts_sorted(r@),
{
    let ghost all = names@;
    let mut rest = names;
    let mut out: Vec<String> = Vec::new();
    proof {
        vstd::seq_lib::to_multiset_len(out@);
        vstd::multiset::lemma_multiset_empty_len(out@.to_multiset());
    }
    while rest.len() > 0
        invariant
            out@.to_multiset().add(rest@.to_multiset()) == all.to_multiset(),
            texts_sorted(out@),
        decreases rest@.len(),
    {
        let ghost before_rest = rest@;
        let ghost before_out = out@;
        let name = rest.pop().unwrap();
        proof {
            assert(before_rest =~= rest@.push(name));
            vstd::seq_lib::to_multiset_build(rest@, name);
        }
        let p = insert_position(&out, &name);
        out.insert(p, name);
        proof {
            vstd::seq_lib::to_multiset_insert(before_out, p as int, name);
            assert(out@.to_multiset().add(rest@.to_multiset()) =~= before_out.to_multiset().add(
                before_rest.to_multiset(),
            ));
            assert forall|i: int, j: int| 0 <= i < j < out@.len() implies text_le(
                out@[i]@,
                out@[j]@,
            ) by {
                if j < p {
                    assert(out@[i] == before_out[i] && out@[j] == before_out[j]);
                } else if j == p {
                    assert(out@[i] == before_out[i]);
                } else if i == p {
                    assert(out@[j] == before_out[j - 1]);
                } else if i < p {
                    assert(out@[i] == before_out[i] && out@[j] == before_out[j - 1]);
                } else {
                    assert(out@[i] == before_out[i - 1] && out@[j] == before_out[j - 1]);
                }
            }
        }
    }
    proof {
        vstd::seq_lib::to_multiset_len(rest@);
        vstd::multiset::lemma_multiset_empty_len(rest@.to_multiset());
    }
    assert(out@.to_multiset().add(rest@.to_multiset()) =~= out@.to_multiset());
    out
}

} // verus!
