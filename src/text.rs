//! Plain text operations on character sequences: pattern replacement,
//! decimal rendering and joining.

use vstd::prelude::*;

verus! {

/// Replaces every non-overlapping occurrence of `pat` in `s`, scanning from
/// the left, by `rep`. An empty pattern leaves `s` unchanged.
pub open spec fn replace_all(s: Seq<char>, pat: Seq<char>, rep: Seq<char>) -> Seq<char>
    decreases s.len(),
{
    if s.len() == 0 {
        s
    } else if 0 < pat.len() <= s.len() && s.take(pat.len() as int) == pat {
        rep + replace_all(s.skip(pat.len() as int), pat, rep)
    } else {
        seq![s[0]] + replace_all(s.skip(1), pat, rep)
    }
}

/// The character of a decimal digit.
pub open spec fn digit_char(d: nat) -> char {
    if d == 0 {
        '0'
    } else if d == 1 {
        '1'
    } else if d == 2 {
        '2'
    } else if d == 3 {
        '3'
    } else if d == 4 {
        '4'
    } else if d == 5 {
        '5'
    } else if d == 6 {
        '6'
    } else if d == 7 {
        '7'
    } else if d == 8 {
        '8'
    } else {
        '9'
    }
}

/// The decimal representation of `n`, without leading zeros.
pub open spec fn decimal(n: nat) -> Seq<char>
    decreases n,
{
    if n < 10 {
        seq![digit_char(n)]
    } else {
        decimal(n / 10) + seq![digit_char(n % 10)]
    }
}

/// Whether `pat` occurs in `s` at character position `i`.
fn occurs_at(s: &str, pat: &str, i: usize) -> (r: bool)
    requires
        i <= s@.len(),
    ensures
        r == (i + pat@.len() <= s@.len() && s@.subrange(i as int, i + pat@.len()) == pat@),
{
    let n = s.unicode_len();
    let m = pat.unicode_len();
    if m > n - i {
        return false;
    }
    let mut j: usize = 0;
    while j < m
        invariant
            j <= m,
            n == s@.len(),
            m == pat@.len(),
            i + m <= n,
            forall|k: int| 0 <= k < j ==> s@[i + k] == pat@[k],
        decreases m - j,
    {
        if s.get_char(i + j) != pat.get_char(j) {
            assert(s@.subrange(i as int, i + m)[j as int] != pat@[j as int]);
            return false;
        }
        j = j + 1;
    }
    assert(s@.subrange(i as int, i + m) =~= pat@);
    true
}

/// `s` with every non-overlapping occurrence of a non-empty `pat` replaced by
/// `rep`, left to right.
pub fn replace(s: &str, pat: &str, rep: &str) -> (r: String)
    requires
        pat@.len() > 0,
    ensures
        r@ == replace_all(s@, pat@, rep@),
{
    let n = s.unicode_len();
    let m = pat.unicode_len();
    let mut out = String::new();
    let mut i: usize = 0;
    proof {
        assert(s@.skip(0) =~= s@);
        assert(out@ + s@ =~= s@);
        assert(out@ + replace_all(s@, pat@, rep@) =~= replace_all(s@, pat@, rep@));
    }
    while i < n
        invariant
            i <= n,
            n == s@.len(),
            m == pat@.len(),
            m > 0,
            out@ + replace_all(s@.skip(i as int), pat@, rep@) == replace_all(s@, pat@, rep@),
        decreases n - i,
    {
        let ghost rest = s@.skip(i as int);
        if occurs_at(s, pat, i) {
            proof {
                assert(rest.take(m as int) =~= s@.subrange(i as int, i + m));
                assert(rest.skip(m as int) =~= s@.skip(i + m));
                assert(out@ + rep@ + replace_all(s@.skip(i + m), pat@, rep@) =~= out@
                    + replace_all(rest, pat@, rep@));
            }
            out.append(rep);
            i = i + m;
        } else {
            let c = s.substring_char(i, i + 1);
            proof {
                if m <= rest.len() {
                    assert(rest.take(m as int) =~= s@.subrange(i as int, i + m));
                }
                assert(rest.skip(1) =~= s@.skip(i + 1 as int));
                assert(c@ =~= seq![rest[0]]);
                assert(out@ + c@ + replace_all(s@.skip(i + 1), pat@, rep@) =~= out@
                    + replace_all(rest, pat@, rep@));
            }
            out.append(c);
            i = i + 1;
        }
    }
    proof {
        assert(s@.skip(n as int).len() == 0);
        assert(out@ =~= out@ + replace_all(s@.skip(n as int), pat@, rep@));
    }
    out
}

/// The one-character string of a decimal digit.
fn digit_str(d: usize) -> (r: &'static str)
    requires
        d < 10,
    ensures
        r@ == seq![digit_char(d as nat)],
{
    proof {
        reveal_strlit("0");
        reveal_strlit("1");
        reveal_strlit("2");
        reveal_strlit("3");
        reveal_strlit("4");
        reveal_strlit("5");
        reveal_strlit("6");
        reveal_strlit("7");
        reveal_strlit("8");
        reveal_strlit("9");
    }
    if d == 0 {
        "0"
    } else if d == 1 {
        "1"
    } else if d == 2 {
        "2"
    } else if d == 3 {
        "3"
    } else if d == 4 {
        "4"
    } else if d == 5 {
        "5"
    } else if d == 6 {
        "6"
    } else if d == 7 {
        "7"
    } else if d == 8 {
        "8"
    } else {
        "9"
    }
}

/// The decimal representation of `n`.
pub fn decimal_string(n: usize) -> (r: String)
    ensures
        r@ == decimal(n as nat),
    decreases n,
{
    if n < 10 {
        String::from_str(digit_str(n))
    } else {
        let mut s = decimal_string(n / 10);
        s.append(digit_str(n % 10));
        s
    }
}

/// `a`, then `sep`, then `b`.
pub fn join3(a: &str, sep: &str, b: &str) -> (r: String)
    ensures
        r@ == a@ + sep@ + b@,
{
    let mut r = String::from_str(a);
    r.append(sep);
    r.append(b);
    r
}

/// The escaped form of one character of a name part: `%` becomes `%25`, `_`
/// becomes `%5F` and `/` becomes `%2F`; any other character stands for
/// itself.
pub open spec fn escape_char(c: char) -> Seq<char> {
    if c == '%' {
        seq!['%', '2', '5']
    } else if c == '_' {
        seq!['%', '5', 'F']
    } else if c == '/' {
        seq!['%', '2', 'F']
    } else {
        seq![c]
    }
}

/// `s` with each character escaped, so that the result holds neither `_` nor
/// `/`: it can be joined with others by `_` without ambiguity, and it names a
/// file inside a directory, never a path of its own.
pub open spec fn escape(s: Seq<char>) -> Seq<char>
    decreases s.len(),
{
    if s.len() == 0 {
        s
    } else {
        escape_char(s[0]) + escape(s.skip(1))
    }
}

/// Undoes `escape`.
pub open spec fn unescape(t: Seq<char>) -> Seq<char>
    decreases t.len(),
{
    if t.len() == 0 {
        t
    } else if t[0] == '%' && t.len() >= 3 {
        if t[1] == '2' && t[2] == '5' {
            seq!['%'] + unescape(t.skip(3))
        } else if t[1] == '2' && t[2] == 'F' {
            seq!['/'] + unescape(t.skip(3))
        } else {
            seq!['_'] + unescape(t.skip(3))
        }
    } else {
        seq![t[0]] + unescape(t.skip(1))
    }
}

/// Escaping can be undone, so distinct texts escape to distinct texts.
pub proof fn lemma_unescape_escape(s: Seq<char>)
    ensures
        unescape(escape(s)) == s,
    decreases s.len(),
{
    if s.len() > 0 {
        lemma_unescape_escape(s.skip(1));
        let e = escape_char(s[0]);
        let t = e + escape(s.skip(1));
        assert(t.skip(e.len() as int) =~= escape(s.skip(1)));
        assert(seq![s[0]] + s.skip(1) =~= s);
    }
}

/// An escaped text holds neither `_` nor `/`.
pub proof fn lemma_escape_has_no_separator(s: Seq<char>)
    ensures
        !escape(s).contains('_'),
        !escape(s).contains('/'),
    decreases s.len(),
{
    if s.len() > 0 {
        lemma_escape_has_no_separator(s.skip(1));
        let e = escape_char(s[0]);
        let r = escape(s.skip(1));
        assert forall|i: int| 0 <= i < (e + r).len() implies (e + r)[i] != '_' && (e + r)[i]
            != '/' by {
            if i >= e.len() {
                assert((e + r)[i] == r[i - e.len()]);
            }
        }
    }
}

/// A decimal representation holds none of `_`, `.` and `/`, and has at least
/// one digit.
pub proof fn lemma_decimal_plain(n: nat)
    ensures
        !decimal(n).contains('_'),
        !decimal(n).contains('/'),
        !decimal(n).contains('.'),
        decimal(n).len() >= 1,
    decreases n,
{
    if n >= 10 {
        lemma_decimal_plain(n / 10);
        let a = decimal(n / 10);
        let b = seq![digit_char(n % 10)];
        assert forall|i: int| 0 <= i < (a + b).len() implies (a + b)[i] != '_' && (a + b)[i]
            != '.' && (a + b)[i] != '/' by {
            if i >= a.len() {
                assert((a + b)[i] == b[i - a.len()]);
            } else {
                assert((a + b)[i] == a[i]);
            }
        }
    }
}

/// Distinct numbers have distinct decimal representations.
pub proof fn lemma_decimal_injective(a: nat, b: nat)
    requires
        decimal(a) == decimal(b),
    ensures
        a == b,
    decreases a,
{
    lemma_decimal_plain(a / 10);
    lemma_decimal_plain(b / 10);
    if a >= 10 && b >= 10 {
        let da = decimal(a / 10);
        let db = decimal(b / 10);
        assert(decimal(a).drop_last() =~= da);
        assert(decimal(b).drop_last() =~= db);
        assert(digit_char(a % 10) == decimal(a).last());
        assert(digit_char(b % 10) == decimal(b).last());
        lemma_decimal_injective(a / 10, b / 10);
        lemma_digit_injective(a % 10, b % 10);
        assert(a == 10 * (a / 10) + a % 10);
        assert(b == 10 * (b / 10) + b % 10);
    } else if a < 10 && b < 10 {
        assert(decimal(a)[0] == digit_char(a));
        assert(decimal(b)[0] == digit_char(b));
        lemma_digit_injective(a, b);
    } else if a < 10 {
        assert(decimal(b).len() == decimal(b / 10).len() + 1);
    } else {
        assert(decimal(a).len() == decimal(a / 10).len() + 1);
    }
}

proof fn lemma_digit_injective(a: nat, b: nat)
    requires
        a < 10,
        b < 10,
        digit_char(a) == digit_char(b),
    ensures
        a == b,
{
}

/// Two texts joined by a separator that the first part of neither holds
/// split back into the same parts.
pub proof fn lemma_split_at_separator(x1: Seq<char>, y1: Seq<char>, x2: Seq<char>, y2: Seq<char>, c: char)
    requires
        x1 + seq![c] + y1 == x2 + seq![c] + y2,
        !x1.contains(c),
        !x2.contains(c),
    ensures
        x1 == x2,
        y1 == y2,
{
    let l = x1 + seq![c] + y1;
    let r = x2 + seq![c] + y2;
    if x1.len() < x2.len() {
        assert(l[x1.len() as int] == c);
        assert(r[x1.len() as int] == x2[x1.len() as int]);
    } else if x2.len() < x1.len() {
        assert(r[x2.len() as int] == c);
        assert(l[x2.len() as int] == x1[x2.len() as int]);
    }
    assert(x1 =~= l.take(x1.len() as int));
    assert(x2 =~= r.take(x2.len() as int));
    assert(y1 =~= l.skip(x1.len() as int + 1));
    assert(y2 =~= r.skip(x2.len() as int + 1));
}

/// `s` with each character escaped.
pub fn escape_part(s: &str) -> (r: String)
    ensures
        r@ == escape(s@),
{
    proof {
        reveal_strlit("%25");
        reveal_strlit("%5F");
    }
    let n = s.unicode_len();
    let mut out = String::new();
    let mut i: usize = 0;
    proof {
        assert(s@.skip(0) =~= s@);
        assert(out@ + escape(s@) =~= escape(s@));
    }
    while i < n
        invariant
            i <= n,
            n == s@.len(),
            out@ + escape(s@.skip(i as int)) == escape(s@),
        decreases n - i,
    {
        let ghost rest = s@.skip(i as int);
        let c = s.get_char(i);
        proof {
            assert(rest.skip(1) =~= s@.skip(i + 1 as int));
            assert(rest[0] == c);
            assert(escape(rest) == escape_char(rest[0]) + escape(rest.skip(1)));
            reveal_strlit("%25");
            reveal_strlit("%5F");
            assert("%25"@ =~= seq!['%', '2', '5']);
            assert("%5F"@ =~= seq!['%', '5', 'F']);
        }
        if c == '%' {
            proof {
                assert(out@ + "%25"@ + escape(s@.skip(i + 1 as int)) =~= out@ + escape(rest));
            }
            out.append("%25");
        } else if c == '_' {
            proof {
                assert(out@ + "%5F"@ + escape(s@.skip(i + 1 as int)) =~= out@ + escape(rest));
            }
            out.append("%5F");
        } else if c == '/' {
            proof {
                reveal_strlit("%2F");
                assert("%2F"@ =~= seq!['%', '2', 'F']);
                assert(out@ + "%2F"@ + escape(s@.skip(i + 1 as int)) =~= out@ + escape(rest));
            }
            out.append("%2F");
        } else {
            let one = s.substring_char(i, i + 1);
            proof {
                assert(one@ =~= seq![c]);
                assert(out@ + one@ + escape(s@.skip(i + 1 as int)) =~= out@ + escape(rest));
            }
            out.append(one);
        }
        i = i + 1;
    }
    proof {
        assert(s@.skip(n as int).len() == 0);
        assert(out@ + escape(s@.skip(n as int)) =~= out@);
    }
    out
}

} // verus!
