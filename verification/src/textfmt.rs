//! Text building blocks of the instance record: an escape for strings kept
//! on a single line, and decimal renderings of integers, each with its
//! parser and a proof that parsing undoes rendering.

use vstd::prelude::*;
use vstd::string::*;

verus! {

// ---------------------------------------------------------------------
// Escaping: `\`, `"` and newline are written as `\\`, `\"` and `\n`, so
// that an escaped string never holds a quote or a line break.
// ---------------------------------------------------------------------

pub open spec fn escaped_char(c: char) -> Seq<char> {
    if c == '\\' {
        seq!['\\', '\\']
    } else if c == '"' {
        seq!['\\', '"']
    } else if c == '\n' {
        seq!['\\', 'n']
    } else {
        seq![c]
    }
}

pub open spec fn escaped(s: Seq<char>) -> Seq<char>
    decreases s.len(),
{
    if s.len() == 0 {
        Seq::empty()
    } else {
        escaped_char(s[0]) + escaped(s.skip(1))
    }
}

/// Strict inverse of `escaped`: rejects a bare quote, a bare newline, an
/// unknown escape and a trailing backslash.
pub open spec fn unescaped(s: Seq<char>) -> Option<Seq<char>>
    decreases s.len(),
{
    if s.len() == 0 {
        Some(Seq::empty())
    } else if s[0] == '\\' {
        if s.len() < 2 {
            None
        } else {
            let decoded = if s[1] == '\\' {
                Some('\\')
            } else if s[1] == '"' {
                Some('"')
            } else if s[1] == 'n' {
                Some('\n')
            } else {
                None
            };
            match decoded {
                None => None,
                Some(c) => match unescaped(s.skip(2)) {
                    None => None,
                    Some(r) => Some(seq![c] + r),
                },
            }
        }
    } else if s[0] == '"' || s[0] == '\n' {
        None
    } else {
        match unescaped(s.skip(1)) {
            None => None,
            Some(r) => Some(seq![s[0]] + r),
        }
    }
}

pub proof fn lemma_escaped_append(a: Seq<char>, b: Seq<char>)
    ensures
        escaped(a + b) =~= escaped(a) + escaped(b),
    decreases a.len(),
{
    if a.len() == 0 {
        assert(a + b =~= b);
    } else {
        assert((a + b).skip(1) =~= a.skip(1) + b);
        lemma_escaped_append(a.skip(1), b);
    }
}

/// An escaped string never holds a line break.
pub proof fn lemma_escaped_clean(s: Seq<char>)
    ensures
        forall|i: int| 0 <= i < escaped(s).len() ==> escaped(s)[i] != '\n',
    decreases s.len(),
{
    if s.len() > 0 {
        lemma_escaped_clean(s.skip(1));
        let e0 = escaped_char(s[0]);
        let e = escaped(s);
        assert(e == e0 + escaped(s.skip(1)));
        assert forall|i: int| 0 <= i < e.len() implies e[i] != '\n' by {
            if i < e0.len() {
                assert(e[i] == e0[i]);
            } else {
                assert(e[i] == escaped(s.skip(1))[i - e0.len()]);
            }
        }
    }
}

/// Unescaping undoes escaping.
pub proof fn lemma_unescape_escape(s: Seq<char>)
    ensures
        unescaped(escaped(s)) == Some(s),
    decreases s.len(),
{
    if s.len() == 0 {
        assert(unescaped(escaped(s)) == Some(Seq::<char>::empty()));
        assert(s =~= Seq::<char>::empty());
    } else {
        let c = s[0];
        let e = escaped(s);
        lemma_unescape_escape(s.skip(1));
        if c == '\\' || c == '"' || c == '\n' {
            assert(e.skip(2) =~= escaped(s.skip(1)));
            assert(unescaped(e) == Some(seq![c] + s.skip(1)));
        } else {
            assert(e.skip(1) =~= escaped(s.skip(1)));
            assert(unescaped(e) == Some(seq![c] + s.skip(1)));
        }
        assert(seq![c] + s.skip(1) =~= s);
    }
}

/// Escapes `s` for use inside a quoted, single-line field.
pub fn escape_text(s: &str) -> (r: String)
    ensures
        r@ == escaped(s@),
{
    proof {
        reveal_strlit("\\\\");
        reveal_strlit("\\\"");
        reveal_strlit("\\n");
    }
    let n = s.unicode_len();
    let mut r = String::new();
    let mut i: usize = 0;
    while i < n
        invariant
            n == s@.len(),
            i <= n,
            r@ == escaped(s@.take(i as int)),
        decreases n - i,
    {
        let c = s.get_char(i);
        proof {
            reveal_strlit("\\\\");
            reveal_strlit("\\\"");
            reveal_strlit("\\n");
            lemma_escaped_append(s@.take(i as int), seq![s@[i as int]]);
            assert(s@.take(i as int) + seq![s@[i as int]] =~= s@.take(i + 1 as int));
        }
        if c == '\\' {
            r.append("\\\\");
            proof {
                assert("\\\\"@ =~= escaped_char('\\'));
            }
        } else if c == '"' {
            r.append("\\\"");
            proof {
                assert("\\\""@ =~= escaped_char('"'));
            }
        } else if c == '\n' {
            r.append("\\n");
            proof {
                assert("\\n"@ =~= escaped_char('\n'));
            }
        } else {
            let piece = s.substring_char(i, i + 1);
            r.append(piece);
            proof {
                assert(piece@ =~= escaped_char(c));
                assert(seq![s@[i as int]].skip(1) =~= Seq::<char>::empty());
            assert(escaped(Seq::<char>::empty()) =~= Seq::<char>::empty());
            assert(escaped(seq![s@[i as int]]) =~= escaped_char(s@[i as int]));
            }
        }
        proof {
            assert(seq![s@[i as int]].skip(1) =~= Seq::<char>::empty());
            assert(escaped(Seq::<char>::empty()) =~= Seq::<char>::empty());
            assert(escaped(seq![s@[i as int]]) =~= escaped_char(s@[i as int]));
        }
        i = i + 1;
    }
    proof {
        assert(s@.take(n as int) =~= s@);
    }
    r
}

/// Undoes `escape_text`; `None` on text that no escape produces.
pub fn unescape_text(s: &str) -> (r: Option<String>)
    ensures
        match r {
            Some(t) => unescaped(s@) == Some(t@),
            None => unescaped(s@) is None,
        },
{
    proof {
        reveal_strlit("\\");
        reveal_strlit("\"");
        reveal_strlit("\n");
        assert("\\"@ =~= seq!['\\']);
        assert("\""@ =~= seq!['"']);
        assert("\n"@ =~= seq!['\n']);
    }
    let n = s.unicode_len();
    let mut out = String::new();
    let mut i: usize = 0;
    proof {
        assert(s@.skip(0) =~= s@);
        assert forall|t: Seq<char>|
            unescaped(s@.skip(0)) == Some(t) implies unescaped(s@) == Some(out@ + t) by {
            assert(out@ + t =~= t);
        }
    }
    while i < n
        invariant
            n == s@.len(),
            i <= n,
            forall|t: Seq<char>|
                unescaped(s@.skip(i as int)) == Some(t) ==> unescaped(s@) == Some(out@ + t),
            unescaped(s@.skip(i as int)) is None ==> unescaped(s@) is None,
        decreases n - i,
    {
        let ghost rest = s@.skip(i as int);
        let c = s.get_char(i);
        proof {
            reveal_strlit("\\");
            reveal_strlit("\"");
            reveal_strlit("\n");
            assert("\\"@ =~= seq!['\\']);
            assert("\""@ =~= seq!['"']);
            assert("\n"@ =~= seq!['\n']);
            assert(rest[0] == s@[i as int]);
        }
        if c == '\\' {
            if i + 1 >= n {
                proof {
                    assert(rest.len() < 2);
                    assert(unescaped(rest) is None);
                }
                return None;
            }
            let d = s.get_char(i + 1);
            proof {
                assert(rest[1] == s@[i + 1 as int]);
                assert(rest.skip(2) =~= s@.skip(i + 2 as int));
            }
            let ghost out0 = out@;
            if d == '\\' {
                out.append("\\");
            } else if d == '"' {
                out.append("\"");
            } else if d == 'n' {
                out.append("\n");
            } else {
                proof {
                    assert(unescaped(rest) is None);
                }
                return None;
            }
            proof {
                let decoded = if d == '\\' {
                    '\\'
                } else if d == '"' {
                    '"'
                } else {
                    '\n'
                };
                assert(out@ =~= out0 + seq![decoded]);
                assert forall|t: Seq<char>|
                    unescaped(s@.skip(i + 2 as int)) == Some(t) implies unescaped(s@) == Some(
                    out@ + t,
                ) by {
                    assert(unescaped(rest) == Some(seq![decoded] + t));
                    assert(unescaped(s@) == Some(out0 + (seq![decoded] + t)));
                    assert(out0 + (seq![decoded] + t) =~= out@ + t);
                }
                assert(unescaped(s@.skip(i + 2 as int)) is None ==> unescaped(rest) is None);
            }
            i = i + 2;
        } else if c == '"' || c == '\n' {
            proof {
                assert(unescaped(rest) is None);
            }
            return None;
        } else {
            let ghost out0 = out@;
            let piece = s.substring_char(i, i + 1);
            out.append(piece);
            proof {
                assert(piece@ =~= seq![s@[i as int]]);
                assert(out@ =~= out0 + seq![c]);
                assert(rest.skip(1) =~= s@.skip(i + 1 as int));
                assert forall|t: Seq<char>|
                    unescaped(s@.skip(i + 1 as int)) == Some(t) implies unescaped(s@) == Some(
                    out@ + t,
                ) by {
                    assert(unescaped(rest) == Some(seq![c] + t));
                    assert(unescaped(s@) == Some(out0 + (seq![c] + t)));
                    assert(out0 + (seq![c] + t) =~= out@ + t);
                }
            }
            i = i + 1;
        }
    }
    proof {
        assert(s@.skip(n as int) =~= Seq::<char>::empty());
        assert(unescaped(s@.skip(n as int)) == Some(Seq::<char>::empty()));
        assert(out@ + Seq::<char>::empty() =~= out@);
    }
    Some(out)
}

// ---------------------------------------------------------------------
// Decimal integers.
// ---------------------------------------------------------------------

pub open spec fn dec_digit(d: int) -> char {
    if d == 0 {
        '0'
    } else if d == 1 {
        '1'
    } else if d == 2 {
        '2'
    } else if d == 3 {
        '3'
    } else if d == 4 {
        '4'
    } else if d == 5 {
        '5'
    } else if d == 6 {
        '6'
    } else if d == 7 {
        '7'
    } else if d == 8 {
        '8'
    } else {
        '9'
    }
}

pub open spec fn is_dec_digit(c: char) -> bool {
    48 <= c as u32 <= 57
}

pub open spec fn digit_val(c: char) -> int {
    c as u32 - 48
}

/// The canonical decimal rendering of `n`, without leading zeros.
pub open spec fn dec_rep(n: nat) -> Seq<char>
    decreases n,
{
    if n < 10 {
        seq![dec_digit(n as int)]
    } else {
        dec_rep(n / 10) + seq![dec_digit((n % 10) as int)]
    }
}

/// The value of a digit string.
pub open spec fn dec_val(s: Seq<char>) -> nat
    decreases s.len(),
{
    if s.len() == 0 {
        0
    } else {
        dec_val(s.drop_last()) * 10 + digit_val(s.last()) as nat
    }
}

pub open spec fn all_dec_digits(s: Seq<char>) -> bool {
    forall|i: int| 0 <= i < s.len() ==> is_dec_digit(s[i])
}

pub proof fn lemma_dec_digit_val(d: int)
    requires
        0 <= d <= 9,
    ensures
        is_dec_digit(dec_digit(d)),
        digit_val(dec_digit(d)) == d,
{
}

/// Parsing undoes decimal rendering.
pub proof fn lemma_dec_val_of_rep(n: nat)
    ensures
        dec_rep(n).len() > 0,
        all_dec_digits(dec_rep(n)),
        dec_val(dec_rep(n)) == n,
    decreases n,
{
    if n < 10 {
        lemma_dec_digit_val(n as int);
        assert(dec_val(Seq::<char>::empty()) == 0);
        assert(dec_rep(n).drop_last() =~= Seq::<char>::empty());
        assert(dec_rep(n).last() == dec_digit(n as int));
    } else {
        lemma_dec_val_of_rep(n / 10);
        lemma_dec_digit_val((n % 10) as int);
        let r = dec_rep(n);
        assert(r.drop_last() =~= dec_rep(n / 10));
        assert(r.last() == dec_digit((n % 10) as int));
        assert(dec_val(r) == (n / 10) * 10 + (n % 10));
        assert(n == (n / 10) * 10 + (n % 10)) by (nonlinear_arith);
    }
}

/// A digit never collides with the structural characters of a record.
pub proof fn lemma_dec_rep_clean(n: nat)
    ensures
        forall|i: int|
            0 <= i < dec_rep(n).len() ==> dec_rep(n)[i] != '\n' && dec_rep(n)[i] != ' '
                && dec_rep(n)[i] != '"',
{
    lemma_dec_val_of_rep(n);
    assert forall|i: int| 0 <= i < dec_rep(n).len() implies dec_rep(n)[i] != '\n' && dec_rep(n)[i]
        != ' ' && dec_rep(n)[i] != '"' by {
        assert(is_dec_digit(dec_rep(n)[i]));
        assert('\n' as u32 == 10);
        assert(' ' as u32 == 32);
        assert('"' as u32 == 34);
    }
}

fn digit_str(d: u64) -> (r: &'static str)
    requires
        d <= 9,
    ensures
        r@ =~= seq![dec_digit(d as int)],
{
    proof {
        reveal_strlit("0");
        reveal_strlit("1");
        reveal_strlit("2");
        reveal_strlit("3");
        reveal_strlit("4");
        reveal_strlit("5");
        reveal_strlit("6");
        reveal_strlit("7");
        reveal_strlit("8");
        reveal_strlit("9");
    }
    if d == 0 {
        "0"
    } else if d == 1 {
        "1"
    } else if d == 2 {
        "2"
    } else if d == 3 {
        "3"
    } else if d == 4 {
        "4"
    } else if d == 5 {
        "5"
    } else if d == 6 {
        "6"
    } else if d == 7 {
        "7"
    } else if d == 8 {
        "8"
    } else {
        "9"
    }
}

/// Renders `n` in decimal.
pub fn print_u64(n: u64) -> (r: String)
    ensures
        r@ == dec_rep(n as nat),
    decreases n,
{
    if n < 10 {
        digit_str(n).to_owned()
    } else {
        let mut r = print_u64(n / 10);
        r.append(digit_str(n % 10));
        proof {
            assert(r@ =~= dec_rep(n as nat));
        }
        r
    }
}

/// If a digit string already exceeds `u64::MAX`, growing it keeps it over.
proof fn lemma_dec_val_grows(s: Seq<char>, i: int)
    requires
        0 <= i <= s.len(),
    ensures
        dec_val(s.take(i)) <= dec_val(s),
    decreases s.len() - i,
{
    if i < s.len() {
        lemma_dec_val_grows(s, i + 1);
        let p = s.take(i + 1);
        assert(p.drop_last() =~= s.take(i));
        assert(dec_val(s.take(i)) <= dec_val(p));
    } else {
        assert(s.take(i) =~= s);
    }
}

/// Parses a nonempty digit string; `None` on other text or on overflow.
pub fn parse_u64(s: &str) -> (r: Option<u64>)
    ensures
        match r {
            Some(v) => s@.len() > 0 && all_dec_digits(s@) && v as nat == dec_val(s@),
            None => !(s@.len() > 0 && all_dec_digits(s@) && dec_val(s@) <= u64::MAX),
        },
{
    let n = s.unicode_len();
    if n == 0 {
        return None;
    }
    let mut val: u64 = 0;
    let mut i: usize = 0;
    while i < n
        invariant
            n == s@.len(),
            i <= n,
            all_dec_digits(s@.take(i as int)),
            val as nat == dec_val(s@.take(i as int)),
        decreases n - i,
    {
        let c = s.get_char(i);
        let code: u32 = c as u32;
        proof {
            assert(s@.take(i + 1 as int).drop_last() =~= s@.take(i as int));
            assert(s@.take(i + 1 as int).last() == s@[i as int]);
        }
        if code < 48 || code > 57 {
            proof {
                assert(!is_dec_digit(s@[i as int]));
            }
            return None;
        }
        let d: u64 = (code - 48) as u64;
        if val > (u64::MAX - d) / 10 {
            proof {
                vstd::arithmetic::div_mod::lemma_fundamental_div_mod(
                    u64::MAX - d,
                    10,
                );
                assert(dec_val(s@.take(i + 1 as int)) > u64::MAX);
                lemma_dec_val_grows(s@, i + 1);
            }
            return None;
        }
        val = val * 10 + d;
        i = i + 1;
    }
    proof {
        assert(s@.take(n as int) =~= s@);
    }
    Some(val)
}

// ---------------------------------------------------------------------
// Booleans.
// ---------------------------------------------------------------------

pub open spec fn bool_rep(b: bool) -> Seq<char> {
    if b {
        "true"@
    } else {
        "false"@
    }
}

pub fn print_bool(b: bool) -> (r: &'static str)
    ensures
        r@ == bool_rep(b),
{
    if b {
        "true"
    } else {
        "false"
    }
}

/// `true` and `false` render differently.
pub proof fn lemma_bool_rep_distinct()
    ensures
        bool_rep(true) != bool_rep(false),
{
    reveal_strlit("true");
    reveal_strlit("false");
    assert(bool_rep(true).len() == 4);
    assert(bool_rep(false).len() == 5);
}

} // verus!
