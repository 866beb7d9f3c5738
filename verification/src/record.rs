//! The instance record: the human-readable key-value text kept at the
//! fixed entry name inside a package. One field stands on each line;
//! strings are quoted and escaped, times are second/nanosecond pairs,
//! and each list is a count line followed by one line per element.
//!
//! The parser is strict: it accepts exactly the canonical text, and
//! parsing is proved to undo encoding.

use vstd::prelude::*;
use vstd::string::*;

use crate::asset::{Asset, AssetV};
use crate::game_data::GameDataV;
use crate::instance::{Instance, InstanceV};
use crate::metadata::MetadataV;
use crate::textfmt::{
    all_dec_digits, bool_rep, dec_rep, dec_val, escaped, unescaped, lemma_dec_val_of_rep,
    lemma_dec_rep_clean, lemma_unescape_escape, lemma_escaped_clean, lemma_bool_rep_distinct,
};
use crate::time::{Duration, Timestamp};

verus! {

// ---------------------------------------------------------------------
// Finding a separator.
// ---------------------------------------------------------------------

/// The index of the first `c` in `s`, or -1.
pub open spec fn find_char(s: Seq<char>, c: char) -> int
    decreases s.len(),
{
    if s.len() == 0 {
        -1
    } else if s[0] == c {
        0
    } else {
        let r = find_char(s.skip(1), c);
        if r < 0 {
            -1
        } else {
            r + 1
        }
    }
}

pub proof fn lemma_find_char_concat(pre: Seq<char>, suf: Seq<char>, c: char)
    requires
        forall|i: int| 0 <= i < pre.len() ==> pre[i] != c,
    ensures
        find_char(pre + seq![c] + suf, c) == pre.len(),
    decreases pre.len(),
{
    let s = pre + seq![c] + suf;
    if pre.len() == 0 {
        assert(s[0] == c);
    } else {
        assert(s[0] == pre[0]);
        assert(s.skip(1) =~= pre.skip(1) + seq![c] + suf);
        assert(forall|i: int| 0 <= i < pre.skip(1).len() ==> pre.skip(1)[i] != c);
        lemma_find_char_concat(pre.skip(1), suf, c);
    }
}

/// Where `find_char` points, `c` stands, with none of it before.
pub proof fn lemma_find_char_present(s: Seq<char>, c: char)
    ensures
        find_char(s, c) >= 0 ==> {
            &&& find_char(s, c) < s.len()
            &&& s[find_char(s, c)] == c
            &&& forall|i: int| 0 <= i < find_char(s, c) ==> s[i] != c
        },
        find_char(s, c) < 0 ==> forall|i: int| 0 <= i < s.len() ==> s[i] != c,
    decreases s.len(),
{
    if s.len() == 0 {
    } else if s[0] == c {
    } else {
        lemma_find_char_present(s.skip(1), c);
        let r = find_char(s.skip(1), c);
        if r >= 0 {
            assert(s[r + 1] == s.skip(1)[r]);
            assert forall|i: int| 0 <= i < r + 1 implies s[i] != c by {
                if i > 0 {
                    assert(s[i] == s.skip(1)[i - 1]);
                }
            }
        } else {
            assert forall|i: int| 0 <= i < s.len() implies s[i] != c by {
                if i > 0 {
                    assert(s[i] == s.skip(1)[i - 1]);
                }
            }
        }
    }
}

/// The first occurrence of `c` in `s`, as a value.
pub fn find_char_in(s: &str, c: char) -> (r: Option<usize>)
    ensures
        match r {
            Some(i) => find_char(s@, c) == i,
            None => find_char(s@, c) == -1,
        },
{
    let n = s.unicode_len();
    let mut i: usize = 0;
    while i < n
        invariant
            n == s@.len(),
            i <= n,
            forall|k: int| 0 <= k < i ==> s@[k] != c,
        decreases n - i,
    {
        if s.get_char(i) == c {
            proof {
                lemma_find_char_present(s@, c);
                if find_char(s@, c) < 0 {
                    assert(s@[i as int] != c);
                }
                assert(find_char(s@, c) == i);
            }
            return Some(i);
        }
        i = i + 1;
    }
    proof {
        lemma_find_char_present(s@, c);
        if find_char(s@, c) >= 0 {
            assert(s@[find_char(s@, c)] != c);
        }
    }
    None
}

// ---------------------------------------------------------------------
// Line shapes.
// ---------------------------------------------------------------------

pub open spec fn quoted(v: Seq<char>) -> Seq<char> {
    seq!['"'] + escaped(v) + seq!['"']
}

pub open spec fn str_line(key: Seq<char>, v: Seq<char>) -> Seq<char> {
    key + seq![' '] + quoted(v)
}

pub open spec fn opt_str_line(key: Seq<char>, v: Option<Seq<char>>) -> Seq<char> {
    match v {
        None => key + seq![' '] + "none"@,
        Some(s) => str_line(key, s),
    }
}

pub open spec fn time_line(key: Seq<char>, secs: u64, nanos: u32) -> Seq<char> {
    key + seq![' '] + dec_rep(secs as nat) + seq![' '] + dec_rep(nanos as nat)
}

pub open spec fn opt_time_line(key: Seq<char>, v: Option<(u64, u32)>) -> Seq<char> {
    match v {
        None => key + seq![' '] + "none"@,
        Some((s, ns)) => time_line(key, s, ns),
    }
}

pub open spec fn count_line(key: Seq<char>, n: nat) -> Seq<char> {
    key + seq![' '] + dec_rep(n)
}

pub open spec fn asset_line(key: Seq<char>, a: AssetV) -> Seq<char> {
    key + seq![' '] + bool_rep(a.enabled) + seq![' '] + quoted(a.path)
}

// ---------------------------------------------------------------------
// Line parsers.
// ---------------------------------------------------------------------

/// `"..."` with the escape undone.
pub open spec fn parse_quoted(s: Seq<char>) -> Option<Seq<char>> {
    if s.len() >= 2 && s[0] == '"' && s[s.len() - 1] == '"' {
        unescaped(s.subrange(1, s.len() - 1))
    } else {
        None
    }
}

/// `rest` of a line after `key` and one space; `None` when the line does
/// not start so.
pub open spec fn strip_key(key: Seq<char>, line: Seq<char>) -> Option<Seq<char>> {
    if line.len() > key.len() && line.take(key.len() as int) == key && line[key.len() as int]
        == ' ' {
        Some(line.skip(key.len() as int + 1))
    } else {
        None
    }
}

pub open spec fn parse_str_line(key: Seq<char>, line: Seq<char>) -> Option<Seq<char>> {
    match strip_key(key, line) {
        None => None,
        Some(rest) => parse_quoted(rest),
    }
}

pub open spec fn parse_opt_str_line(key: Seq<char>, line: Seq<char>) -> Option<
    Option<Seq<char>>,
> {
    match strip_key(key, line) {
        None => None,
        Some(rest) => if rest == "none"@ {
            Some(None)
        } else {
            match parse_quoted(rest) {
                None => None,
                Some(v) => Some(Some(v)),
            }
        },
    }
}

/// Two decimal numbers split on the first space: a seconds/nanoseconds
/// pair, the nanoseconds under one second.
pub open spec fn parse_time_pair(rest: Seq<char>) -> Option<(u64, u32)> {
    let j = find_char(rest, ' ');
    if j < 0 {
        None
    } else {
        let a = rest.take(j);
        let b = rest.skip(j + 1);
        if a.len() > 0 && all_dec_digits(a) && dec_val(a) <= u64::MAX && b.len() > 0
            && all_dec_digits(b) && dec_val(b) < 1_000_000_000 {
            Some((dec_val(a) as u64, dec_val(b) as u32))
        } else {
            None
        }
    }
}

pub open spec fn parse_time_line(key: Seq<char>, line: Seq<char>) -> Option<(u64, u32)> {
    match strip_key(key, line) {
        None => None,
        Some(rest) => parse_time_pair(rest),
    }
}

pub open spec fn parse_opt_time_line(key: Seq<char>, line: Seq<char>) -> Option<
    Option<(u64, u32)>,
> {
    match strip_key(key, line) {
        None => None,
        Some(rest) => if rest == "none"@ {
            Some(None)
        } else {
            match parse_time_pair(rest) {
                None => None,
                Some(v) => Some(Some(v)),
            }
        },
    }
}

pub open spec fn parse_count_line(key: Seq<char>, line: Seq<char>) -> Option<nat> {
    match strip_key(key, line) {
        None => None,
        Some(rest) => if rest.len() > 0 && all_dec_digits(rest) && dec_val(rest) <= u64::MAX {
            Some(dec_val(rest))
        } else {
            None
        },
    }
}

pub open spec fn parse_asset_line(key: Seq<char>, line: Seq<char>) -> Option<AssetV> {
    match strip_key(key, line) {
        None => None,
        Some(rest) => {
            let j = find_char(rest, ' ');
            if j < 0 {
                None
            } else {
                let flag = rest.take(j);
                let enabled = if flag == "true"@ {
                    Some(true)
                } else if flag == "false"@ {
                    Some(false)
                } else {
                    None
                };
                match enabled {
                    None => None,
                    Some(e) => match parse_quoted(rest.skip(j + 1)) {
                        None => None,
                        Some(p) => Some(AssetV { path: p, enabled: e }),
                    },
                }
            }
        },
    }
}

// ---------------------------------------------------------------------
// Round trips of single lines.
// ---------------------------------------------------------------------

pub proof fn lemma_parse_quoted_of_quoted(v: Seq<char>)
    ensures
        parse_quoted(quoted(v)) == Some(v),
{
    let q = quoted(v);
    assert(q[0] == '"');
    assert(q[q.len() - 1] == '"');
    assert(q.subrange(1, q.len() - 1) =~= escaped(v));
    lemma_unescape_escape(v);
}

pub proof fn lemma_strip_key_of_line(key: Seq<char>, rest: Seq<char>)
    ensures
        strip_key(key, key + seq![' '] + rest) == Some(rest),
{
    let line = key + seq![' '] + rest;
    assert(line.take(key.len() as int) =~= key);
    assert(line[key.len() as int] == ' ');
    assert(line.skip(key.len() as int + 1) =~= rest);
}

pub proof fn lemma_parse_str_line(key: Seq<char>, v: Seq<char>)
    ensures
        parse_str_line(key, str_line(key, v)) == Some(v),
{
    lemma_strip_key_of_line(key, quoted(v));
    lemma_parse_quoted_of_quoted(v);
}

pub proof fn lemma_parse_opt_str_line(key: Seq<char>, v: Option<Seq<char>>)
    ensures
        parse_opt_str_line(key, opt_str_line(key, v)) == Some(v),
{
    match v {
        None => {
            lemma_strip_key_of_line(key, "none"@);
        },
        Some(s) => {
            lemma_strip_key_of_line(key, quoted(s));
            lemma_parse_quoted_of_quoted(s);
            reveal_strlit("none");
            let q = quoted(s);
            if q == "none"@ {
                assert(q[0] == '"');
                assert("none"@[0] == 'n');
                assert(false);
            }
        },
    }
}

pub proof fn lemma_parse_time_pair(secs: u64, nanos: u32)
    requires
        nanos < 1_000_000_000,
    ensures
        parse_time_pair(dec_rep(secs as nat) + seq![' '] + dec_rep(nanos as nat)) == Some(
            (secs, nanos),
        ),
{
    let a = dec_rep(secs as nat);
    let b = dec_rep(nanos as nat);
    let rest = a + seq![' '] + b;
    lemma_dec_rep_clean(secs as nat);
    lemma_dec_rep_clean(nanos as nat);
    lemma_dec_val_of_rep(secs as nat);
    lemma_dec_val_of_rep(nanos as nat);
    lemma_find_char_concat(a, b, ' ');
    assert(rest.take(a.len() as int) =~= a);
    assert(rest.skip(a.len() as int + 1) =~= b);
}

pub proof fn lemma_parse_time_line(key: Seq<char>, secs: u64, nanos: u32)
    requires
        nanos < 1_000_000_000,
    ensures
        parse_time_line(key, time_line(key, secs, nanos)) == Some((secs, nanos)),
{
    let rest = dec_rep(secs as nat) + seq![' '] + dec_rep(nanos as nat);
    assert(time_line(key, secs, nanos) =~= key + seq![' '] + rest);
    lemma_strip_key_of_line(key, rest);
    lemma_parse_time_pair(secs, nanos);
}

pub proof fn lemma_parse_opt_time_line(key: Seq<char>, v: Option<(u64, u32)>)
    requires
        match v {
            Some((s, ns)) => ns < 1_000_000_000,
            None => true,
        },
    ensures
        parse_opt_time_line(key, opt_time_line(key, v)) == Some(v),
{
    match v {
        None => {
            lemma_strip_key_of_line(key, "none"@);
        },
        Some((s, ns)) => {
            let rest = dec_rep(s as nat) + seq![' '] + dec_rep(ns as nat);
            assert(opt_time_line(key, v) =~= key + seq![' '] + rest);
            lemma_strip_key_of_line(key, rest);
            lemma_parse_time_pair(s, ns);
            reveal_strlit("none");
            if rest == "none"@ {
                lemma_dec_rep_clean(s as nat);
                lemma_dec_val_of_rep(s as nat);
                assert(rest[0] == dec_rep(s as nat)[0]);
                assert(crate::textfmt::is_dec_digit(rest[0]));
                assert("none"@[0] == 'n');
                assert('n' as u32 == 110);
                assert(false);
            }
        },
    }
}

pub proof fn lemma_parse_count_line(key: Seq<char>, n: u64)
    ensures
        parse_count_line(key, count_line(key, n as nat)) == Some(n as nat),
{
    lemma_strip_key_of_line(key, dec_rep(n as nat));
    lemma_dec_val_of_rep(n as nat);
}

pub proof fn lemma_parse_asset_line(key: Seq<char>, a: AssetV)
    ensures
        parse_asset_line(key, asset_line(key, a)) == Some(a),
{
    let flag = bool_rep(a.enabled);
    let rest = flag + seq![' '] + quoted(a.path);
    assert(asset_line(key, a) =~= key + seq![' '] + rest);
    lemma_strip_key_of_line(key, rest);
    reveal_strlit("true");
    reveal_strlit("false");
    assert(forall|i: int| 0 <= i < flag.len() ==> flag[i] != ' ');
    lemma_find_char_concat(flag, quoted(a.path), ' ');
    assert(rest.take(flag.len() as int) =~= flag);
    assert(rest.skip(flag.len() as int + 1) =~= quoted(a.path));
    lemma_bool_rep_distinct();
    lemma_parse_quoted_of_quoted(a.path);
}


// ---------------------------------------------------------------------
// Whole records.
// ---------------------------------------------------------------------

/// A line fit to join: it holds no line break.
pub open spec fn clean_line(l: Seq<char>) -> bool {
    forall|i: int| 0 <= i < l.len() ==> l[i] != '\n'
}

/// Lines joined with a terminating line break after each.
pub open spec fn lines_joined(ls: Seq<Seq<char>>) -> Seq<char>
    decreases ls.len(),
{
    if ls.len() == 0 {
        Seq::empty()
    } else {
        ls.first() + seq!['\n'] + lines_joined(ls.drop_first())
    }
}

/// The inverse split; `None` when the text does not end with a line break.
pub open spec fn split_lines(s: Seq<char>) -> Option<Seq<Seq<char>>>
    decreases s.len(),
{
    if s.len() == 0 {
        Some(Seq::empty())
    } else {
        let i = find_char(s, '\n');
        if 0 <= i < s.len() {
            match split_lines(s.skip(i + 1)) {
                None => None,
                Some(r) => Some(seq![s.take(i)] + r),
            }
        } else {
            None
        }
    }
}

pub proof fn lemma_lines_joined_append(a: Seq<Seq<char>>, b: Seq<Seq<char>>)
    ensures
        lines_joined(a + b) =~= lines_joined(a) + lines_joined(b),
    decreases a.len(),
{
    if a.len() == 0 {
        assert(a + b =~= b);
    } else {
        assert((a + b).first() == a.first());
        assert((a + b).drop_first() =~= a.drop_first() + b);
        lemma_lines_joined_append(a.drop_first(), b);
    }
}

/// Splitting undoes joining, for clean lines.
pub proof fn lemma_split_of_joined(ls: Seq<Seq<char>>)
    requires
        forall|k: int| 0 <= k < ls.len() ==> clean_line(#[trigger] ls[k]),
    ensures
        split_lines(lines_joined(ls)) == Some(ls),
    decreases ls.len(),
{
    if ls.len() == 0 {
    } else {
        let s = lines_joined(ls);
        let rest = lines_joined(ls.drop_first());
        assert(s =~= ls.first() + seq!['\n'] + rest);
        assert(clean_line(ls[0]));
        lemma_find_char_concat(ls.first(), rest, '\n');
        let i = ls.first().len() as int;
        assert(s.len() > 0);
        assert(s.take(i) =~= ls.first());
        assert(s.skip(i + 1) =~= rest);
        assert(forall|k: int|
            0 <= k < ls.drop_first().len() ==> clean_line(#[trigger] ls.drop_first()[k]));
        lemma_split_of_joined(ls.drop_first());
        assert(seq![ls.first()] + ls.drop_first() =~= ls);
    }
}

pub open spec fn timestamp_pair(o: Option<Timestamp>) -> Option<(u64, u32)> {
    match o {
        None => None,
        Some(t) => Some((t.secs, t.nanos)),
    }
}

pub open spec fn duration_pair(o: Option<Duration>) -> Option<(u64, u32)> {
    match o {
        None => None,
        Some(d) => Some((d.secs, d.nanos)),
    }
}

/// The lines of the canonical record of an instance.
pub open spec fn record_lines(v: InstanceV) -> Seq<Seq<char>> {
    seq![
        str_line("name"@, v.metadata.name),
        opt_str_line("image"@, v.metadata.image),
        time_line("playtime"@, v.metadata.playtime.secs, v.metadata.playtime.nanos),
        opt_time_line("last_played"@, timestamp_pair(v.metadata.last_played)),
        opt_time_line("last_session"@, duration_pair(v.metadata.last_session_duration)),
        str_line("savedir"@, v.gamedata.savedir),
        count_line("iwads"@, v.gamedata.iwads.len()),
    ] + v.gamedata.iwads.map_values(|a: AssetV| asset_line("iwad"@, a)) + seq![
        count_line("mods"@, v.gamedata.mods.len()),
    ] + v.gamedata.mods.map_values(|a: AssetV| asset_line("mod"@, a)) + seq![
        count_line("params"@, v.gamedata.additional_params.len()),
    ] + v.gamedata.additional_params.map_values(|p: Seq<char>| str_line("param"@, p))
}

/// The canonical record text of an instance.
pub open spec fn encoded_record(v: InstanceV) -> Seq<char> {
    lines_joined(record_lines(v))
}

pub open spec fn parse_asset_lines(key: Seq<char>, ls: Seq<Seq<char>>, n: nat) -> Option<
    Seq<AssetV>,
>
    decreases n,
{
    if n == 0 {
        Some(Seq::empty())
    } else if ls.len() == 0 {
        None
    } else {
        match parse_asset_line(key, ls.first()) {
            None => None,
            Some(a) => match parse_asset_lines(key, ls.drop_first(), (n - 1) as nat) {
                None => None,
                Some(r) => Some(seq![a] + r),
            },
        }
    }
}

pub open spec fn parse_str_lines(key: Seq<char>, ls: Seq<Seq<char>>, n: nat) -> Option<
    Seq<Seq<char>>,
>
    decreases n,
{
    if n == 0 {
        Some(Seq::empty())
    } else if ls.len() == 0 {
        None
    } else {
        match parse_str_line(key, ls.first()) {
            None => None,
            Some(v) => match parse_str_lines(key, ls.drop_first(), (n - 1) as nat) {
                None => None,
                Some(r) => Some(seq![v] + r),
            },
        }
    }
}

/// The strict parse of a split record: the fixed head lines, then each
/// counted list, and nothing after.
pub open spec fn parse_record(ls: Seq<Seq<char>>) -> Option<InstanceV> {
    if ls.len() < 7 {
        None
    } else {
        match parse_str_line("name"@, ls[0]) {
            None => None,
            Some(name) => match parse_opt_str_line("image"@, ls[1]) {
                None => None,
                Some(image) => match parse_time_line("playtime"@, ls[2]) {
                    None => None,
                    Some(pt) => match parse_opt_time_line("last_played"@, ls[3]) {
                        None => None,
                        Some(lp) => match parse_opt_time_line("last_session"@, ls[4]) {
                            None => None,
                            Some(lsd) => match parse_str_line("savedir"@, ls[5]) {
                                None => None,
                                Some(savedir) => parse_record_lists(
                                    ls,
                                    name,
                                    image,
                                    pt,
                                    lp,
                                    lsd,
                                    savedir,
                                ),
                            },
                        },
                    },
                },
            },
        }
    }
}

/// The counted lists of a split record, from line 6 on.
pub open spec fn parse_record_lists(
    ls: Seq<Seq<char>>,
    name: Seq<char>,
    image: Option<Seq<char>>,
    pt: (u64, u32),
    lp: Option<(u64, u32)>,
    lsd: Option<(u64, u32)>,
    savedir: Seq<char>,
) -> Option<InstanceV> {
    match parse_count_line("iwads"@, ls[6]) {
        None => None,
        Some(ni) => match parse_asset_lines("iwad"@, ls.skip(7), ni) {
            None => None,
            Some(iwads) => {
                let k2 = 7 + ni;
                if ls.len() <= k2 {
                    None
                } else {
                    match parse_count_line("mods"@, ls[k2 as int]) {
                        None => None,
                        Some(nm) => match parse_asset_lines("mod"@, ls.skip(k2 as int + 1), nm) {
                            None => None,
                            Some(mods) => {
                                let k3 = k2 + 1 + nm;
                                if ls.len() <= k3 {
                                    None
                                } else {
                                    match parse_count_line("params"@, ls[k3 as int]) {
                                        None => None,
                                        Some(np) => match parse_str_lines(
                                            "param"@,
                                            ls.skip(k3 as int + 1),
                                            np,
                                        ) {
                                            None => None,
                                            Some(params) => if ls.len() == k3 + 1 + np {
                                                Some(
                                                    InstanceV {
                                                        metadata: MetadataV {
                                                            name,
                                                            image,
                                                            playtime: Duration {
                                                                secs: pt.0,
                                                                nanos: pt.1,
                                                            },
                                                            last_played: match lp {
                                                                None => None,
                                                                Some((s, ns)) => Some(
                                                                    Timestamp { secs: s, nanos: ns },
                                                                ),
                                                            },
                                                            last_session_duration: match lsd {
                                                                None => None,
                                                                Some((s, ns)) => Some(
                                                                    Duration { secs: s, nanos: ns },
                                                                ),
                                                            },
                                                        },
                                                        gamedata: GameDataV {
                                                            iwads,
                                                            mods,
                                                            savedir,
                                                            additional_params: params,
                                                        },
                                                    },
                                                )
                                            } else {
                                                None
                                            },
                                        },
                                    }
                                }
                            },
                        },
                    }
                }
            },
        },
    }
}

/// The strict parse of whole record text.
pub open spec fn parse_of_text(s: Seq<char>) -> Option<InstanceV> {
    match split_lines(s) {
        None => None,
        Some(ls) => parse_record(ls),
    }
}


// ---------------------------------------------------------------------
// Clean lines: no record line holds a line break.
// ---------------------------------------------------------------------

pub proof fn lemma_clean_concat(a: Seq<char>, b: Seq<char>)
    requires
        clean_line(a),
        clean_line(b),
    ensures
        clean_line(a + b),
{
    assert forall|i: int| 0 <= i < (a + b).len() implies (a + b)[i] != '\n' by {
        if i < a.len() {
            assert((a + b)[i] == a[i]);
        } else {
            assert((a + b)[i] == b[i - a.len()]);
        }
    }
}

pub proof fn lemma_quoted_clean(v: Seq<char>)
    ensures
        clean_line(quoted(v)),
{
    lemma_escaped_clean(v);
    assert(clean_line(seq!['"']));
    assert(clean_line(escaped(v)));
    lemma_clean_concat(seq!['"'], escaped(v));
    lemma_clean_concat(seq!['"'] + escaped(v), seq!['"']);
}

pub proof fn lemma_str_line_clean(key: Seq<char>, v: Seq<char>)
    requires
        clean_line(key),
    ensures
        clean_line(str_line(key, v)),
{
    lemma_quoted_clean(v);
    lemma_clean_concat(key, seq![' ']);
    lemma_clean_concat(key + seq![' '], quoted(v));
}

pub proof fn lemma_none_clean()
    ensures
        clean_line("none"@),
{
    reveal_strlit("none");
    assert forall|i: int| 0 <= i < "none"@.len() implies "none"@[i] != '\n' by {
        assert('\n' as u32 == 10);
    }
}

pub proof fn lemma_opt_str_line_clean(key: Seq<char>, v: Option<Seq<char>>)
    requires
        clean_line(key),
    ensures
        clean_line(opt_str_line(key, v)),
{
    match v {
        None => {
            lemma_none_clean();
            lemma_clean_concat(key, seq![' ']);
            lemma_clean_concat(key + seq![' '], "none"@);
        },
        Some(s) => {
            lemma_str_line_clean(key, s);
        },
    }
}

pub proof fn lemma_dec_clean(n: nat)
    ensures
        clean_line(dec_rep(n)),
{
    lemma_dec_rep_clean(n);
}

pub proof fn lemma_time_line_clean(key: Seq<char>, s: u64, ns: u32)
    requires
        clean_line(key),
    ensures
        clean_line(time_line(key, s, ns)),
{
    lemma_dec_clean(s as nat);
    lemma_dec_clean(ns as nat);
    lemma_clean_concat(key, seq![' ']);
    lemma_clean_concat(key + seq![' '], dec_rep(s as nat));
    lemma_clean_concat(key + seq![' '] + dec_rep(s as nat), seq![' ']);
    lemma_clean_concat(key + seq![' '] + dec_rep(s as nat) + seq![' '], dec_rep(ns as nat));
}

pub proof fn lemma_opt_time_line_clean(key: Seq<char>, v: Option<(u64, u32)>)
    requires
        clean_line(key),
    ensures
        clean_line(opt_time_line(key, v)),
{
    match v {
        None => {
            lemma_none_clean();
            lemma_clean_concat(key, seq![' ']);
            lemma_clean_concat(key + seq![' '], "none"@);
        },
        Some((s, ns)) => {
            lemma_time_line_clean(key, s, ns);
        },
    }
}

pub proof fn lemma_count_line_clean(key: Seq<char>, n: nat)
    requires
        clean_line(key),
    ensures
        clean_line(count_line(key, n)),
{
    lemma_dec_clean(n);
    lemma_clean_concat(key, seq![' ']);
    lemma_clean_concat(key + seq![' '], dec_rep(n));
}

pub proof fn lemma_asset_line_clean(key: Seq<char>, a: AssetV)
    requires
        clean_line(key),
    ensures
        clean_line(asset_line(key, a)),
{
    reveal_strlit("true");
    reveal_strlit("false");
    assert(clean_line(bool_rep(a.enabled))) by {
        assert forall|i: int| 0 <= i < bool_rep(a.enabled).len() implies bool_rep(a.enabled)[i]
            != '\n' by {
            assert('\n' as u32 == 10);
        }
    }
    lemma_quoted_clean(a.path);
    lemma_clean_concat(key, seq![' ']);
    lemma_clean_concat(key + seq![' '], bool_rep(a.enabled));
    lemma_clean_concat(key + seq![' '] + bool_rep(a.enabled), seq![' ']);
    lemma_clean_concat(key + seq![' '] + bool_rep(a.enabled) + seq![' '], quoted(a.path));
}

pub proof fn lemma_keys_clean()
    ensures
        clean_line("name"@),
        clean_line("image"@),
        clean_line("playtime"@),
        clean_line("last_played"@),
        clean_line("last_session"@),
        clean_line("savedir"@),
        clean_line("iwads"@),
        clean_line("iwad"@),
        clean_line("mods"@),
        clean_line("mod"@),
        clean_line("params"@),
        clean_line("param"@),
{
    reveal_strlit("name");
    reveal_strlit("image");
    reveal_strlit("playtime");
    reveal_strlit("last_played");
    reveal_strlit("last_session");
    reveal_strlit("savedir");
    reveal_strlit("iwads");
    reveal_strlit("iwad");
    reveal_strlit("mods");
    reveal_strlit("mod");
    reveal_strlit("params");
    reveal_strlit("param");
    assert('\n' as u32 == 10);
}

/// Every line of a record is clean.
pub proof fn lemma_record_lines_clean(v: InstanceV)
    ensures
        forall|k: int| 0 <= k < record_lines(v).len() ==> clean_line(#[trigger] record_lines(v)[k]),
{
    lemma_keys_clean();
    let ls = record_lines(v);
    let iw = v.gamedata.iwads.map_values(|a: AssetV| asset_line("iwad"@, a));
    let ms = v.gamedata.mods.map_values(|a: AssetV| asset_line("mod"@, a));
    let ps = v.gamedata.additional_params.map_values(|p: Seq<char>| str_line("param"@, p));
    assert forall|k: int| 0 <= k < ls.len() implies clean_line(#[trigger] ls[k]) by {
        let ni = iw.len() as int;
        let nm = ms.len() as int;
        if k == 0 {
            lemma_str_line_clean("name"@, v.metadata.name);
        } else if k == 1 {
            lemma_opt_str_line_clean("image"@, v.metadata.image);
        } else if k == 2 {
            lemma_time_line_clean("playtime"@, v.metadata.playtime.secs, v.metadata.playtime.nanos);
        } else if k == 3 {
            lemma_opt_time_line_clean("last_played"@, timestamp_pair(v.metadata.last_played));
        } else if k == 4 {
            lemma_opt_time_line_clean(
                "last_session"@,
                duration_pair(v.metadata.last_session_duration),
            );
        } else if k == 5 {
            lemma_str_line_clean("savedir"@, v.gamedata.savedir);
        } else if k == 6 {
            lemma_count_line_clean("iwads"@, v.gamedata.iwads.len());
        } else if k < 7 + ni {
            assert(ls[k] == iw[k - 7]);
            lemma_asset_line_clean("iwad"@, v.gamedata.iwads[k - 7]);
        } else if k == 7 + ni {
            lemma_count_line_clean("mods"@, v.gamedata.mods.len());
        } else if k < 8 + ni + nm {
            assert(ls[k] == ms[k - 8 - ni]);
            lemma_asset_line_clean("mod"@, v.gamedata.mods[k - 8 - ni]);
        } else if k == 8 + ni + nm {
            lemma_count_line_clean("params"@, v.gamedata.additional_params.len());
        } else {
            assert(ls[k] == ps[k - 9 - ni - nm]);
            lemma_str_line_clean("param"@, v.gamedata.additional_params[k - 9 - ni - nm]);
        }
    }
}

// ---------------------------------------------------------------------
// Round trip of whole records.
// ---------------------------------------------------------------------

pub proof fn lemma_parse_asset_lines_round(key: Seq<char>, assets: Seq<AssetV>, extra: Seq<
    Seq<char>,
>)
    ensures
        parse_asset_lines(
            key,
            assets.map_values(|a: AssetV| asset_line(key, a)) + extra,
            assets.len(),
        ) == Some(assets),
    decreases assets.len(),
{
    let m = assets.map_values(|a: AssetV| asset_line(key, a));
    let ls = m + extra;
    if assets.len() == 0 {
        assert(assets =~= Seq::<AssetV>::empty());
    } else {
        assert(ls.len() > 0);
        assert(ls.first() == asset_line(key, assets[0]));
        lemma_parse_asset_line(key, assets[0]);
        assert(ls.drop_first() =~= assets.drop_first().map_values(|a: AssetV| asset_line(key, a))
            + extra);
        lemma_parse_asset_lines_round(key, assets.drop_first(), extra);
        assert(seq![assets[0]] + assets.drop_first() =~= assets);
    }
}

pub proof fn lemma_parse_str_lines_round(key: Seq<char>, vals: Seq<Seq<char>>, extra: Seq<
    Seq<char>,
>)
    ensures
        parse_str_lines(
            key,
            vals.map_values(|p: Seq<char>| str_line(key, p)) + extra,
            vals.len(),
        ) == Some(vals),
    decreases vals.len(),
{
    let m = vals.map_values(|p: Seq<char>| str_line(key, p));
    let ls = m + extra;
    if vals.len() == 0 {
        assert(vals =~= Seq::<Seq<char>>::empty());
    } else {
        assert(ls.len() > 0);
        assert(ls.first() == str_line(key, vals[0]));
        lemma_parse_str_line(key, vals[0]);
        assert(ls.drop_first() =~= vals.drop_first().map_values(|p: Seq<char>| str_line(key, p))
            + extra);
        lemma_parse_str_lines_round(key, vals.drop_first(), extra);
        assert(seq![vals[0]] + vals.drop_first() =~= vals);
    }
}

/// An instance value the record can carry: normalized times and list
/// lengths a machine can count.
pub open spec fn encodable(v: InstanceV) -> bool {
    &&& v.metadata.wf()
    &&& v.gamedata.iwads.len() <= u64::MAX
    &&& v.gamedata.mods.len() <= u64::MAX
    &&& v.gamedata.additional_params.len() <= u64::MAX
}

/// Parsing the split lines of a canonical record yields the instance back.
#[verifier::rlimit(100)]
pub proof fn lemma_parse_record_of_lines(v: InstanceV)
    requires
        encodable(v),
    ensures
        parse_record(record_lines(v)) == Some(v),
{
    let ls = record_lines(v);
    let iw = v.gamedata.iwads.map_values(|a: AssetV| asset_line("iwad"@, a));
    let ms = v.gamedata.mods.map_values(|a: AssetV| asset_line("mod"@, a));
    let ps = v.gamedata.additional_params.map_values(|p: Seq<char>| str_line("param"@, p));
    let ni = iw.len() as int;
    let nm = ms.len() as int;
    let np = ps.len() as int;
    assert(ls.len() == 9 + ni + nm + np);
    lemma_parse_str_line("name"@, v.metadata.name);
    lemma_parse_opt_str_line("image"@, v.metadata.image);
    lemma_parse_time_line("playtime"@, v.metadata.playtime.secs, v.metadata.playtime.nanos);
    lemma_parse_opt_time_line("last_played"@, timestamp_pair(v.metadata.last_played));
    lemma_parse_opt_time_line("last_session"@, duration_pair(v.metadata.last_session_duration));
    lemma_parse_str_line("savedir"@, v.gamedata.savedir);
    lemma_parse_count_line("iwads"@, v.gamedata.iwads.len() as u64);
    lemma_parse_count_line("mods"@, v.gamedata.mods.len() as u64);
    lemma_parse_count_line("params"@, v.gamedata.additional_params.len() as u64);
    assert(ls[0] == str_line("name"@, v.metadata.name));
    assert(ls[1] == opt_str_line("image"@, v.metadata.image));
    assert(ls[2] == time_line("playtime"@, v.metadata.playtime.secs, v.metadata.playtime.nanos));
    assert(ls[3] == opt_time_line("last_played"@, timestamp_pair(v.metadata.last_played)));
    assert(ls[4] == opt_time_line(
        "last_session"@,
        duration_pair(v.metadata.last_session_duration),
    ));
    assert(ls[5] == str_line("savedir"@, v.gamedata.savedir));
    assert(ls[6] == count_line("iwads"@, v.gamedata.iwads.len()));
    assert(ls.skip(7) =~= iw + (seq![count_line("mods"@, v.gamedata.mods.len())] + ms + seq![
        count_line("params"@, v.gamedata.additional_params.len()),
    ] + ps));
    lemma_parse_asset_lines_round(
        "iwad"@,
        v.gamedata.iwads,
        seq![count_line("mods"@, v.gamedata.mods.len())] + ms + seq![
            count_line("params"@, v.gamedata.additional_params.len()),
        ] + ps,
    );
    assert(ls[7 + ni] == count_line("mods"@, v.gamedata.mods.len()));
    assert(ls.skip(7 + ni + 1) =~= ms + (seq![
        count_line("params"@, v.gamedata.additional_params.len()),
    ] + ps));
    lemma_parse_asset_lines_round(
        "mod"@,
        v.gamedata.mods,
        seq![count_line("params"@, v.gamedata.additional_params.len())] + ps,
    );
    assert(ls[8 + ni + nm] == count_line("params"@, v.gamedata.additional_params.len()));
    assert(ls.skip(8 + ni + nm + 1) =~= ps + Seq::<Seq<char>>::empty());
    lemma_parse_str_lines_round("param"@, v.gamedata.additional_params, Seq::empty());
    match parse_record(ls) {
        Some(got) => {
            assert(got =~= v);
        },
        None => {
            assert(false);
        },
    }
}

/// Parsing undoes encoding, whole text to whole text.
pub proof fn lemma_record_round_trip(v: InstanceV)
    requires
        encodable(v),
    ensures
        parse_of_text(encoded_record(v)) == Some(v),
{
    lemma_record_lines_clean(v);
    lemma_split_of_joined(record_lines(v));
    lemma_parse_record_of_lines(v);
}


// ---------------------------------------------------------------------
// The executable encoder.
// ---------------------------------------------------------------------

fn build_quoted(v: &str) -> (r: String)
    ensures
        r@ == quoted(v@),
{
    proof {
        reveal_strlit("\"");
        assert("\""@ =~= seq!['"']);
    }
    let mut r = String::new();
    r.append("\"");
    let esc = crate::textfmt::escape_text(v);
    r.append(esc.as_str());
    r.append("\"");
    proof {
        assert(r@ =~= quoted(v@));
    }
    r
}

fn build_str_line(key: &str, v: &str) -> (r: String)
    ensures
        r@ == str_line(key@, v@),
{
    proof {
        reveal_strlit(" ");
        assert(" "@ =~= seq![' ']);
    }
    let mut r = key.to_owned();
    r.append(" ");
    let q = build_quoted(v);
    r.append(q.as_str());
    proof {
        assert(r@ =~= str_line(key@, v@));
    }
    r
}

fn build_opt_str_line(key: &str, v: &Option<String>) -> (r: String)
    ensures
        r@ == opt_str_line(key@, crate::metadata::opt_string_view(*v)),
{
    proof {
        reveal_strlit(" none");
        reveal_strlit("none");
        reveal_strlit(" ");
        assert(" none"@ =~= seq![' '] + "none"@);
    }
    match v {
        None => {
            let mut r = key.to_owned();
            r.append(" none");
            proof {
                assert(r@ =~= key@ + seq![' '] + "none"@);
            }
            r
        },
        Some(s) => build_str_line(key, s.as_str()),
    }
}

fn build_time_line(key: &str, secs: u64, nanos: u32) -> (r: String)
    ensures
        r@ == time_line(key@, secs, nanos),
{
    proof {
        reveal_strlit(" ");
        assert(" "@ =~= seq![' ']);
    }
    let mut r = key.to_owned();
    r.append(" ");
    let a = crate::textfmt::print_u64(secs);
    r.append(a.as_str());
    r.append(" ");
    let b = crate::textfmt::print_u64(nanos as u64);
    r.append(b.as_str());
    proof {
        assert(b@ == dec_rep(nanos as nat));
        assert(r@ =~= time_line(key@, secs, nanos));
    }
    r
}

fn build_opt_time_line(key: &str, v: Option<(u64, u32)>) -> (r: String)
    ensures
        r@ == opt_time_line(key@, v),
{
    proof {
        reveal_strlit(" none");
        reveal_strlit("none");
        reveal_strlit(" ");
        assert(" none"@ =~= seq![' '] + "none"@);
    }
    match v {
        None => {
            let mut r = key.to_owned();
            r.append(" none");
            proof {
                assert(r@ =~= key@ + seq![' '] + "none"@);
            }
            r
        },
        Some((s, ns)) => build_time_line(key, s, ns),
    }
}

fn build_count_line(key: &str, n: usize) -> (r: String)
    ensures
        r@ == count_line(key@, n as nat),
{
    proof {
        reveal_strlit(" ");
        assert(" "@ =~= seq![' ']);
    }
    let mut r = key.to_owned();
    r.append(" ");
    let a = crate::textfmt::print_u64(n as u64);
    r.append(a.as_str());
    proof {
        assert(r@ =~= count_line(key@, n as nat));
    }
    r
}

fn build_asset_line(key: &str, a: &Asset) -> (r: String)
    ensures
        r@ == asset_line(key@, a@),
{
    proof {
        reveal_strlit(" ");
        assert(" "@ =~= seq![' ']);
    }
    let mut r = key.to_owned();
    r.append(" ");
    r.append(crate::textfmt::print_bool(a.enabled));
    r.append(" ");
    let q = build_quoted(a.path.as_str());
    r.append(q.as_str());
    proof {
        assert(r@ =~= asset_line(key@, a@));
    }
    r
}

fn build_asset_lines(key: &str, assets: &Vec<Asset>, lines: &mut Vec<String>)
    ensures
        final(lines)@.map_values(|s: String| s@) == old(lines)@.map_values(|s: String| s@)
            + assets@.map_values(|a: Asset| a@).map_values(|a: AssetV| asset_line(key@, a)),
{
    let ghost g = |s: String| s@;
    let ghost f = |a: AssetV| asset_line(key@, a);
    let ghost vs = assets@.map_values(|a: Asset| a@);
    let ghost base = lines@.map_values(g);
    let mut i: usize = 0;
    proof {
        assert(base + vs.take(0).map_values(f) =~= base);
    }
    while i < assets.len()
        invariant
            i <= assets@.len(),
            vs == assets@.map_values(|a: Asset| a@),
            base == old(lines)@.map_values(g),
            g == (|s: String| s@),
            f == (|a: AssetV| asset_line(key@, a)),
            lines@.map_values(g) == base + vs.take(i as int).map_values(f),
        decreases assets@.len() - i,
    {
        let ghost l0 = lines@;
        let line = build_asset_line(key, &assets[i]);
        lines.push(line);
        proof {
            assert(vs.take(i + 1 as int) =~= vs.take(i as int).push(vs[i as int]));
            crate::utils::lemma_map_values_push(vs.take(i as int), f, vs[i as int]);
            crate::utils::lemma_map_values_push(l0, g, line);
            assert(g(line) == f(vs[i as int]));
            assert(lines@.map_values(g) =~= base + vs.take(i + 1 as int).map_values(f));
        }
        i = i + 1;
    }
    proof {
        assert(vs.take(vs.len() as int) =~= vs);
    }
}

fn build_param_lines(key: &str, params: &Vec<String>, lines: &mut Vec<String>)
    ensures
        final(lines)@.map_values(|s: String| s@) == old(lines)@.map_values(|s: String| s@)
            + params@.map_values(|s: String| s@).map_values(|p: Seq<char>| str_line(key@, p)),
{
    let ghost g = |s: String| s@;
    let ghost f = |p: Seq<char>| str_line(key@, p);
    let ghost vs = params@.map_values(g);
    let ghost base = lines@.map_values(g);
    let mut i: usize = 0;
    proof {
        assert(base + vs.take(0).map_values(f) =~= base);
    }
    while i < params.len()
        invariant
            i <= params@.len(),
            vs == params@.map_values(|s: String| s@),
            base == old(lines)@.map_values(g),
            g == (|s: String| s@),
            f == (|p: Seq<char>| str_line(key@, p)),
            lines@.map_values(g) == base + vs.take(i as int).map_values(f),
        decreases params@.len() - i,
    {
        let ghost l0 = lines@;
        let line = build_str_line(key, params[i].as_str());
        lines.push(line);
        proof {
            assert(vs.take(i + 1 as int) =~= vs.take(i as int).push(vs[i as int]));
            crate::utils::lemma_map_values_push(vs.take(i as int), f, vs[i as int]);
            crate::utils::lemma_map_values_push(l0, g, line);
            assert(g(line) == f(vs[i as int]));
            assert(lines@.map_values(g) =~= base + vs.take(i + 1 as int).map_values(f));
        }
        i = i + 1;
    }
    proof {
        assert(vs.take(vs.len() as int) =~= vs);
    }
}

fn join_lines(lines: &Vec<String>) -> (r: String)
    ensures
        r@ == lines_joined(lines@.map_values(|s: String| s@)),
{
    let ghost ls = lines@.map_values(|s: String| s@);
    let mut r = String::new();
    let mut i: usize = 0;
    proof {
        assert(ls.take(0) =~= Seq::<Seq<char>>::empty());
        assert(r@ =~= lines_joined(ls.take(0)));
    }
    while i < lines.len()
        invariant
            i <= lines@.len(),
            ls == lines@.map_values(|s: String| s@),
            r@ == lines_joined(ls.take(i as int)),
        decreases lines@.len() - i,
    {
        proof {
            reveal_strlit("\n");
            assert("\n"@ =~= seq!['\n']);
        }
        r.append(lines[i].as_str());
        r.append("\n");
        proof {
            assert(ls.take(i + 1 as int) =~= ls.take(i as int) + seq![ls[i as int]]);
            lemma_lines_joined_append(ls.take(i as int), seq![ls[i as int]]);
            assert(seq![ls[i as int]].drop_first() =~= Seq::<Seq<char>>::empty());
            assert(lines_joined(Seq::<Seq<char>>::empty()) =~= Seq::<char>::empty());
            assert(lines_joined(seq![ls[i as int]]) =~= ls[i as int] + seq!['\n']);
            assert(r@ =~= lines_joined(ls.take(i + 1 as int)));
        }
        i = i + 1;
    }
    proof {
        assert(ls.take(ls.len() as int) =~= ls);
    }
    r
}

/// The canonical record text of an instance.
pub fn encode_record(inst: &Instance) -> (r: String)
    ensures
        r@ == encoded_record(inst@),
{
    let mut lines: Vec<String> = Vec::new();
    lines.push(build_str_line("name", inst.metadata.name.as_str()));
    lines.push(build_opt_str_line("image", &inst.metadata.image));
    lines.push(
        build_time_line("playtime", inst.metadata.playtime.secs, inst.metadata.playtime.nanos),
    );
    let lp: Option<(u64, u32)> = match &inst.metadata.last_played {
        None => None,
        Some(t) => Some((t.secs, t.nanos)),
    };
    lines.push(build_opt_time_line("last_played", lp));
    let lsd: Option<(u64, u32)> = match &inst.metadata.last_session_duration {
        None => None,
        Some(d) => Some((d.secs, d.nanos)),
    };
    lines.push(build_opt_time_line("last_session", lsd));
    lines.push(build_str_line("savedir", inst.gamedata.savedir.as_str()));
    lines.push(build_count_line("iwads", inst.gamedata.iwads.len()));
    let ghost head = lines@.map_values(|s: String| s@);
    proof {
        assert(head =~= seq![
            str_line("name"@, inst@.metadata.name),
            opt_str_line("image"@, inst@.metadata.image),
            time_line("playtime"@, inst@.metadata.playtime.secs, inst@.metadata.playtime.nanos),
            opt_time_line("last_played"@, timestamp_pair(inst@.metadata.last_played)),
            opt_time_line("last_session"@, duration_pair(inst@.metadata.last_session_duration)),
            str_line("savedir"@, inst@.gamedata.savedir),
            count_line("iwads"@, inst@.gamedata.iwads.len()),
        ]);
    }
    build_asset_lines("iwad", &inst.gamedata.iwads, &mut lines);
    let ghost l1 = lines@;
    lines.push(build_count_line("mods", inst.gamedata.mods.len()));
    proof {
        crate::utils::lemma_map_values_push(l1, |s: String| s@, lines@.last());
    }
    build_asset_lines("mod", &inst.gamedata.mods, &mut lines);
    let ghost l2 = lines@;
    lines.push(build_count_line("params", inst.gamedata.additional_params.len()));
    proof {
        crate::utils::lemma_map_values_push(l2, |s: String| s@, lines@.last());
    }
    build_param_lines("param", &inst.gamedata.additional_params, &mut lines);
    proof {
        assert(lines@.map_values(|s: String| s@) =~= record_lines(inst@));
    }
    join_lines(&lines)
}


// ---------------------------------------------------------------------
// The executable parser.
// ---------------------------------------------------------------------

pub fn str_eq_in(a: &str, b: &str) -> (r: bool)
    ensures
        r == (a@ == b@),
{
    let na = a.unicode_len();
    let nb = b.unicode_len();
    if na != nb {
        return false;
    }
    let mut i: usize = 0;
    while i < na
        invariant
            na == a@.len(),
            nb == b@.len(),
            na == nb,
            i <= na,
            forall|k: int| 0 <= k < i ==> a@[k] == b@[k],
        decreases na - i,
    {
        if a.get_char(i) != b.get_char(i) {
            return false;
        }
        i = i + 1;
    }
    proof {
        assert(a@ =~= b@);
    }
    true
}

fn strip_key_in(key: &str, line: &str) -> (r: Option<String>)
    ensures
        match r {
            Some(rest) => strip_key(key@, line@) == Some(rest@),
            None => strip_key(key@, line@) is None,
        },
{
    let kl = key.unicode_len();
    let n = line.unicode_len();
    if n <= kl {
        return None;
    }
    let pre = line.substring_char(0, kl);
    if !str_eq_in(pre, key) {
        proof {
            assert(line@.take(kl as int) =~= pre@);
        }
        return None;
    }
    if line.get_char(kl) != ' ' {
        return None;
    }
    let rest = line.substring_char(kl + 1, n);
    proof {
        assert(line@.take(kl as int) =~= pre@);
        assert(rest@ =~= line@.skip(kl as int + 1));
    }
    Some(rest.to_owned())
}

fn parse_quoted_in(s: &str) -> (r: Option<String>)
    ensures
        match r {
            Some(v) => parse_quoted(s@) == Some(v@),
            None => parse_quoted(s@) is None,
        },
{
    let n = s.unicode_len();
    if n < 2 {
        return None;
    }
    if s.get_char(0) != '"' || s.get_char(n - 1) != '"' {
        return None;
    }
    let mid = s.substring_char(1, n - 1);
    proof {
        assert(mid@ =~= s@.subrange(1, s@.len() - 1));
    }
    crate::textfmt::unescape_text(mid)
}

fn parse_str_line_in(key: &str, line: &str) -> (r: Option<String>)
    ensures
        match r {
            Some(v) => parse_str_line(key@, line@) == Some(v@),
            None => parse_str_line(key@, line@) is None,
        },
{
    match strip_key_in(key, line) {
        None => None,
        Some(rest) => parse_quoted_in(rest.as_str()),
    }
}

fn parse_opt_str_line_in(key: &str, line: &str) -> (r: Option<Option<String>>)
    ensures
        match r {
            Some(v) => parse_opt_str_line(key@, line@) == Some(
                crate::metadata::opt_string_view(v),
            ),
            None => parse_opt_str_line(key@, line@) is None,
        },
{
    match strip_key_in(key, line) {
        None => None,
        Some(rest) => {
            if str_eq_in(rest.as_str(), "none") {
                Some(None)
            } else {
                match parse_quoted_in(rest.as_str()) {
                    None => None,
                    Some(v) => Some(Some(v)),
                }
            }
        },
    }
}

fn parse_time_pair_in(rest: &str) -> (r: Option<(u64, u32)>)
    ensures
        match r {
            Some(v) => parse_time_pair(rest@) == Some(v),
            None => parse_time_pair(rest@) is None,
        },
{
    let n = rest.unicode_len();
    match find_char_in(rest, ' ') {
        None => None,
        Some(j) => {
            proof {
                lemma_find_char_present(rest@, ' ');
            }
            let a = rest.substring_char(0, j);
            let b = rest.substring_char(j + 1, n);
            proof {
                assert(a@ =~= rest@.take(j as int));
                assert(b@ =~= rest@.skip(j as int + 1));
            }
            match crate::textfmt::parse_u64(a) {
                None => None,
                Some(va) => match crate::textfmt::parse_u64(b) {
                    None => None,
                    Some(vb) => {
                        if vb < 1_000_000_000 {
                            Some((va, vb as u32))
                        } else {
                            None
                        }
                    },
                },
            }
        },
    }
}

fn parse_time_line_in(key: &str, line: &str) -> (r: Option<(u64, u32)>)
    ensures
        match r {
            Some(v) => parse_time_line(key@, line@) == Some(v),
            None => parse_time_line(key@, line@) is None,
        },
{
    match strip_key_in(key, line) {
        None => None,
        Some(rest) => parse_time_pair_in(rest.as_str()),
    }
}

fn parse_opt_time_line_in(key: &str, line: &str) -> (r: Option<Option<(u64, u32)>>)
    ensures
        match r {
            Some(v) => parse_opt_time_line(key@, line@) == Some(v),
            None => parse_opt_time_line(key@, line@) is None,
        },
{
    match strip_key_in(key, line) {
        None => None,
        Some(rest) => {
            if str_eq_in(rest.as_str(), "none") {
                Some(None)
            } else {
                match parse_time_pair_in(rest.as_str()) {
                    None => None,
                    Some(v) => Some(Some(v)),
                }
            }
        },
    }
}

fn parse_count_line_in(key: &str, line: &str) -> (r: Option<u64>)
    ensures
        match r {
            Some(v) => parse_count_line(key@, line@) == Some(v as nat),
            None => parse_count_line(key@, line@) is None,
        },
{
    match strip_key_in(key, line) {
        None => None,
        Some(rest) => crate::textfmt::parse_u64(rest.as_str()),
    }
}

fn parse_asset_line_in(key: &str, line: &str) -> (r: Option<Asset>)
    ensures
        match r {
            Some(a) => parse_asset_line(key@, line@) == Some(a@),
            None => parse_asset_line(key@, line@) is None,
        },
{
    match strip_key_in(key, line) {
        None => None,
        Some(rest) => {
            let n = rest.as_str().unicode_len();
            match find_char_in(rest.as_str(), ' ') {
                None => None,
                Some(j) => {
                    proof {
                        lemma_find_char_present(rest@, ' ');
                    }
                    let flag = rest.as_str().substring_char(0, j);
                    let tail = rest.as_str().substring_char(j + 1, n);
                    proof {
                        assert(flag@ =~= rest@.take(j as int));
                        assert(tail@ =~= rest@.skip(j as int + 1));
                    }
                    let enabled: Option<bool> = if str_eq_in(flag, "true") {
                        Some(true)
                    } else if str_eq_in(flag, "false") {
                        Some(false)
                    } else {
                        None
                    };
                    match enabled {
                        None => None,
                        Some(e) => match parse_quoted_in(tail) {
                            None => None,
                            Some(p) => Some(Asset::new(p, e)),
                        },
                    }
                },
            }
        },
    }
}

fn parse_asset_lines_in(key: &str, lines: &Vec<String>, start: usize, n: u64) -> (r: Option<
    Vec<Asset>,
>)
    requires
        start <= lines@.len(),
    ensures
        match r {
            Some(v) => {
                &&& parse_asset_lines(
                    key@,
                    lines@.map_values(|s: String| s@).skip(start as int),
                    n as nat,
                ) == Some(v@.map_values(|a: Asset| a@))
                &&& start + n <= lines@.len()
                &&& v@.len() == n
            },
            None => parse_asset_lines(
                key@,
                lines@.map_values(|s: String| s@).skip(start as int),
                n as nat,
            ) is None,
        },
{
    let ghost ls = lines@.map_values(|s: String| s@);
    let mut out: Vec<Asset> = Vec::new();
    let mut i: u64 = 0;
    while i < n
        invariant
            i <= n,
            start + i <= lines@.len(),
            ls == lines@.map_values(|s: String| s@),
            out@.len() == i,
            match parse_asset_lines(key@, ls.skip(start + i as int), (n - i) as nat) {
                Some(rest) => parse_asset_lines(key@, ls.skip(start as int), n as nat) == Some(
                    out@.map_values(|a: Asset| a@) + rest,
                ),
                None => parse_asset_lines(key@, ls.skip(start as int), n as nat) is None,
            },
        decreases n - i,
    {
        let ghost cur = ls.skip(start + i as int);
        let remaining: usize = lines.len() - start;
        if i >= remaining as u64 {
            proof {
                assert(cur.len() == 0);
                assert(parse_asset_lines(key@, cur, (n - i) as nat) is None);
            }
            return None;
        }
        let idx: usize = start + (i as usize);
        let a = parse_asset_line_in(key, lines[idx].as_str());
        proof {
            assert(cur.len() > 0);
            assert(cur.first() == ls[start + i as int]);
            assert(ls[start + i as int] == lines@[start + i as int]@);
            assert(cur.drop_first() =~= ls.skip(start + i + 1 as int));
        }
        match a {
            None => {
                proof {
                    assert(parse_asset_lines(key@, cur, (n - i) as nat) is None);
                }
                return None;
            },
            Some(asset) => {
                let ghost out0 = out@;
                out.push(asset);
                proof {
                    crate::utils::lemma_map_values_push(out0, |a: Asset| a@, asset);
                    let next = parse_asset_lines(
                        key@,
                        ls.skip(start + i + 1 as int),
                        (n - i - 1) as nat,
                    );
                    match next {
                        Some(rest) => {
                            assert(parse_asset_lines(key@, cur, (n - i) as nat) == Some(
                                seq![asset@] + rest,
                            ));
                            assert(out0.map_values(|a: Asset| a@) + (seq![asset@] + rest) =~= out@
                                .map_values(|a: Asset| a@) + rest);
                        },
                        None => {
                            assert(parse_asset_lines(key@, cur, (n - i) as nat) is None);
                        },
                    }
                }
                i = i + 1;
            },
        }
    }
    proof {
        assert(parse_asset_lines(key@, ls.skip(start + n as int), 0) == Some(
            Seq::<AssetV>::empty(),
        ));
        assert(out@.map_values(|a: Asset| a@) + Seq::<AssetV>::empty() =~= out@.map_values(
            |a: Asset| a@,
        ));
    }
    Some(out)
}

fn parse_str_lines_in(key: &str, lines: &Vec<String>, start: usize, n: u64) -> (r: Option<
    Vec<String>,
>)
    requires
        start <= lines@.len(),
    ensures
        match r {
            Some(v) => {
                &&& parse_str_lines(
                    key@,
                    lines@.map_values(|s: String| s@).skip(start as int),
                    n as nat,
                ) == Some(v@.map_values(|s: String| s@))
                &&& start + n <= lines@.len()
                &&& v@.len() == n
            },
            None => parse_str_lines(
                key@,
                lines@.map_values(|s: String| s@).skip(start as int),
                n as nat,
            ) is None,
        },
{
    let ghost ls = lines@.map_values(|s: String| s@);
    let mut out: Vec<String> = Vec::new();
    let mut i: u64 = 0;
    while i < n
        invariant
            i <= n,
            start + i <= lines@.len(),
            ls == lines@.map_values(|s: String| s@),
            out@.len() == i,
            match parse_str_lines(key@, ls.skip(start + i as int), (n - i) as nat) {
                Some(rest) => parse_str_lines(key@, ls.skip(start as int), n as nat) == Some(
                    out@.map_values(|s: String| s@) + rest,
                ),
                None => parse_str_lines(key@, ls.skip(start as int), n as nat) is None,
            },
        decreases n - i,
    {
        let ghost cur = ls.skip(start + i as int);
        let remaining: usize = lines.len() - start;
        if i >= remaining as u64 {
            proof {
                assert(cur.len() == 0);
                assert(parse_str_lines(key@, cur, (n - i) as nat) is None);
            }
            return None;
        }
        let idx: usize = start + (i as usize);
        let a = parse_str_line_in(key, lines[idx].as_str());
        proof {
            assert(cur.len() > 0);
            assert(cur.first() == ls[start + i as int]);
            assert(ls[start + i as int] == lines@[start + i as int]@);
            assert(cur.drop_first() =~= ls.skip(start + i + 1 as int));
        }
        match a {
            None => {
                proof {
                    assert(parse_str_lines(key@, cur, (n - i) as nat) is None);
                }
                return None;
            },
            Some(v) => {
                let ghost out0 = out@;
                out.push(v);
                proof {
                    crate::utils::lemma_map_values_push(out0, |s: String| s@, out@.last());
                    let next = parse_str_lines(
                        key@,
                        ls.skip(start + i + 1 as int),
                        (n - i - 1) as nat,
                    );
                    match next {
                        Some(rest) => {
                            assert(parse_str_lines(key@, cur, (n - i) as nat) == Some(
                                seq![out@.last()@] + rest,
                            ));
                            assert(out0.map_values(|s: String| s@) + (seq![out@.last()@] + rest)
                                =~= out@.map_values(|s: String| s@) + rest);
                        },
                        None => {
                            assert(parse_str_lines(key@, cur, (n - i) as nat) is None);
                        },
                    }
                }
                i = i + 1;
            },
        }
    }
    proof {
        assert(parse_str_lines(key@, ls.skip(start + n as int), 0) == Some(
            Seq::<Seq<char>>::empty(),
        ));
        assert(out@.map_values(|s: String| s@) + Seq::<Seq<char>>::empty() =~= out@.map_values(
            |s: String| s@,
        ));
    }
    Some(out)
}

/// The strict parse of split record lines.
#[verifier::rlimit(100)]
pub fn parse_record_in(lines: &Vec<String>) -> (r: Option<Instance>)
    ensures
        match r {
            Some(inst) => parse_record(lines@.map_values(|s: String| s@)) == Some(inst@),
            None => parse_record(lines@.map_values(|s: String| s@)) is None,
        },
{
    let ghost ls = lines@.map_values(|s: String| s@);
    if lines.len() < 7 {
        return None;
    }
    proof {
        assert(ls[0] == lines@[0]@);
        assert(ls[1] == lines@[1]@);
        assert(ls[2] == lines@[2]@);
        assert(ls[3] == lines@[3]@);
        assert(ls[4] == lines@[4]@);
        assert(ls[5] == lines@[5]@);
        assert(ls[6] == lines@[6]@);
    }
    let name = match parse_str_line_in("name", lines[0].as_str()) {
        None => {
            return None;
        },
        Some(v) => v,
    };
    let image = match parse_opt_str_line_in("image", lines[1].as_str()) {
        None => {
            return None;
        },
        Some(v) => v,
    };
    let pt = match parse_time_line_in("playtime", lines[2].as_str()) {
        None => {
            return None;
        },
        Some(v) => v,
    };
    let lp = match parse_opt_time_line_in("last_played", lines[3].as_str()) {
        None => {
            return None;
        },
        Some(v) => v,
    };
    let lsd = match parse_opt_time_line_in("last_session", lines[4].as_str()) {
        None => {
            return None;
        },
        Some(v) => v,
    };
    let savedir = match parse_str_line_in("savedir", lines[5].as_str()) {
        None => {
            return None;
        },
        Some(v) => v,
    };
    let ni = match parse_count_line_in("iwads", lines[6].as_str()) {
        None => {
            return None;
        },
        Some(v) => v,
    };
    let iwads = match parse_asset_lines_in("iwad", lines, 7, ni) {
        None => {
            return None;
        },
        Some(v) => v,
    };
    let k2: usize = 7 + (ni as usize);
    if k2 >= lines.len() {
        return None;
    }
    proof {
        assert(ls[k2 as int] == lines@[k2 as int]@);
    }
    let nm = match parse_count_line_in("mods", lines[k2].as_str()) {
        None => {
            return None;
        },
        Some(v) => v,
    };
    let mods = match parse_asset_lines_in("mod", lines, k2 + 1, nm) {
        None => {
            return None;
        },
        Some(v) => v,
    };
    let k3: usize = k2 + 1 + (nm as usize);
    if k3 >= lines.len() {
        return None;
    }
    proof {
        assert(ls[k3 as int] == lines@[k3 as int]@);
    }
    let np = match parse_count_line_in("params", lines[k3].as_str()) {
        None => {
            return None;
        },
        Some(v) => v,
    };
    let params = match parse_str_lines_in("param", lines, k3 + 1, np) {
        None => {
            return None;
        },
        Some(v) => v,
    };
    if lines.len() != k3 + 1 + (np as usize) {
        return None;
    }
    let inst = Instance {
        metadata: crate::metadata::Metadata {
            name,
            image,
            playtime: Duration { secs: pt.0, nanos: pt.1 },
            last_played: match lp {
                None => None,
                Some((se, ns)) => Some(Timestamp { secs: se, nanos: ns }),
            },
            last_session_duration: match lsd {
                None => None,
                Some((se, ns)) => Some(Duration { secs: se, nanos: ns }),
            },
        },
        gamedata: crate::game_data::GameData {
            iwads,
            mods,
            savedir,
            additional_params: params,
        },
    };
    proof {
        assert(parse_record(ls) == Some(inst@)) by {
            assert(parse_record(ls) matches Some(got) && got =~= inst@);
        }
    }
    Some(inst)
}

/// Splits text into its `\n`-terminated lines.
pub fn split_lines_in(s: &str) -> (r: Option<Vec<String>>)
    ensures
        match r {
            Some(v) => split_lines(s@) == Some(v@.map_values(|l: String| l@)),
            None => split_lines(s@) is None,
        },
{
    let n = s.unicode_len();
    let mut out: Vec<String> = Vec::new();
    let mut p: usize = 0;
    proof {
        assert(s@.skip(0) =~= s@);
        match split_lines(s@) {
            Some(rest) => {
                assert(out@.map_values(|l: String| l@) + rest =~= rest);
            },
            None => {},
        }
    }
    while p < n
        invariant
            p <= n,
            n == s@.len(),
            match split_lines(s@.skip(p as int)) {
                Some(rest) => split_lines(s@) == Some(out@.map_values(|l: String| l@) + rest),
                None => split_lines(s@) is None,
            },
        decreases n - p,
    {
        let ghost cur = s@.skip(p as int);
        let rest_str = s.substring_char(p, n);
        proof {
            assert(rest_str@ =~= cur);
        }
        match find_char_in(rest_str, '\n') {
            None => {
                proof {
                    assert(cur.len() > 0);
                    lemma_find_char_present(cur, '\n');
                    assert(split_lines(cur) is None);
                }
                return None;
            },
            Some(j) => {
                proof {
                    lemma_find_char_present(cur, '\n');
                    assert(0 <= find_char(cur, '\n') < cur.len());
                }
                let piece = rest_str.substring_char(0, j);
                let ghost out0 = out@;
                out.push(piece.to_owned());
                proof {
                    crate::utils::lemma_map_values_push(out0, |l: String| l@, out@.last());
                    assert(out@.last()@ =~= cur.take(j as int));
                    assert(cur.skip(j + 1 as int) =~= s@.skip(p + j + 1 as int));
                    let next = split_lines(s@.skip(p + j + 1 as int));
                    match next {
                        Some(rest) => {
                            assert(split_lines(cur) == Some(seq![cur.take(j as int)] + rest));
                            assert(out0.map_values(|l: String| l@) + (seq![cur.take(j as int)]
                                + rest) =~= out@.map_values(|l: String| l@) + rest);
                        },
                        None => {
                            assert(split_lines(cur) is None);
                        },
                    }
                }
                p = p + j + 1;
            },
        }
    }
    proof {
        assert(s@.skip(n as int) =~= Seq::<char>::empty());
        assert(split_lines(s@.skip(n as int)) == Some(Seq::<Seq<char>>::empty()));
        assert(out@.map_values(|l: String| l@) + Seq::<Seq<char>>::empty() =~= out@.map_values(
            |l: String| l@,
        ));
    }
    Some(out)
}

/// The strict parse of whole record text.
pub fn parse_record_text(s: &str) -> (r: Option<Instance>)
    ensures
        match r {
            Some(inst) => parse_of_text(s@) == Some(inst@),
            None => parse_of_text(s@) is None,
        },
{
    match split_lines_in(s) {
        None => None,
        Some(lines) => parse_record_in(&lines),
    }
}

} // verus!
