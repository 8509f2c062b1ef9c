//! Character-level string helpers with exact contracts.

use vstd::prelude::*;
use vstd::string::*;

verus! {

/// Appends one character to a string (`String::push`).
#[verifier::external_body]
fn push_char(s: &mut String, c: char)
    ensures
        final(s)@ == old(s)@.push(c),
{
    s.push(c);
}

/// The characters of `s`, in order.
pub fn chars_of(s: &str) -> (r: Vec<char>)
    ensures
        r@ == s@,
{
    let n = s.unicode_len();
    let mut r: Vec<char> = Vec::new();
    let mut i: usize = 0;
    while i < n
        invariant
            n == s@.len(),
            i <= n,
            r@ == s@.take(i as int),
        decreases n - i,
    {
        let c = s.get_char(i);
        r.push(c);
        i = i + 1;
        assert(r@ == s@.take(i as int));
    }
    assert(s@.take(n as int) == s@);
    r
}

/// The string made of the characters `cs`, in order.
pub fn string_of(cs: &Vec<char>) -> (r: String)
    ensures
        r@ == cs@,
{
    let mut r = String::new();
    let mut i: usize = 0;
    while i < cs.len()
        invariant
            i <= cs.len(),
            r@ == cs@.take(i as int),
        decreases cs.len() - i,
    {
        push_char(&mut r, cs[i]);
        i = i + 1;
        assert(r@ == cs@.take(i as int));
    }
    assert(cs@.take(cs.len() as int) == cs@);
    r
}


/// A dash read as an underscore; every other character kept.
pub open spec fn dash_to_underscore(c: char) -> char {
    if c == '-' {
        '_'
    } else {
        c
    }
}

/// `s` with every `-` replaced by `_` (what `str::replace('-', "_")` gives).
pub open spec fn underscored(s: Seq<char>) -> Seq<char> {
    s.map_values(|c: char| dash_to_underscore(c))
}

/// `s` with every `-` replaced by `_`.
pub fn underscore_dashes(s: &str) -> (r: String)
    ensures
        r@ == underscored(s@),
{
    let cs = chars_of(s);
    let mut out: Vec<char> = Vec::new();
    let mut i: usize = 0;
    while i < cs.len()
        invariant
            i <= cs.len(),
            cs@ == s@,
            out@ == underscored(cs@.take(i as int)),
        decreases cs.len() - i,
    {
        let c = cs[i];
        if c == '-' {
            out.push('_');
        } else {
            out.push(c);
        }
        assert(out@ =~= underscored(cs@.take(i + 1)));
        i = i + 1;
    }
    assert(cs@.take(cs.len() as int) =~= cs@);
    string_of(&out)
}

/// Whether `p` is a prefix of `s`.
pub open spec fn has_prefix(s: Seq<char>, p: Seq<char>) -> bool {
    p.len() <= s.len() && s.take(p.len() as int) == p
}

/// `s` without its prefix `p` where it has it, else `s` itself
/// (what `s.strip_prefix(p).unwrap_or(s)` gives).
pub open spec fn strip_prefix_or_keep(s: Seq<char>, p: Seq<char>) -> Seq<char> {
    if has_prefix(s, p) {
        s.skip(p.len() as int)
    } else {
        s
    }
}

/// `s` without its prefix `prefix` where it has it, else `s` itself.
pub fn strip_or_keep(s: &str, prefix: &str) -> (r: String)
    ensures
        r@ == strip_prefix_or_keep(s@, prefix@),
{
    let cs = chars_of(s);
    let ps = chars_of(prefix);
    if ps.len() > cs.len() {
        return string_of(&cs);
    }
    let mut i: usize = 0;
    while i < ps.len()
        invariant
            i <= ps.len() <= cs.len(),
            cs@ == s@,
            ps@ == prefix@,
            forall|k: int| 0 <= k < i ==> cs@[k] == ps@[k],
        decreases ps.len() - i,
    {
        if cs[i] != ps[i] {
            assert(cs@.take(ps.len() as int)[i as int] != ps@[i as int]);
            return string_of(&cs);
        }
        i = i + 1;
    }
    assert(cs@.take(ps.len() as int) =~= ps@);
    let mut rest: Vec<char> = Vec::new();
    let mut j: usize = ps.len();
    while j < cs.len()
        invariant
            ps.len() <= j <= cs.len(),
            rest@ == cs@.subrange(ps.len() as int, j as int),
        decreases cs.len() - j,
    {
        rest.push(cs[j]);
        assert(rest@ =~= cs@.subrange(ps.len() as int, j + 1));
        j = j + 1;
    }
    assert(rest@ =~= cs@.skip(ps.len() as int));
    string_of(&rest)
}

/// Whether the whole of `s` matches the glob `p`, in which `*` stands for any
/// run of characters (the empty one too) and every other character for itself.
pub open spec fn glob_matches(p: Seq<char>, s: Seq<char>) -> bool
    decreases p.len(), s.len(),
{
    if p.len() == 0 {
        s.len() == 0
    } else if p[0] == '*' {
        glob_matches(p.drop_first(), s) || (s.len() > 0 && glob_matches(p, s.drop_first()))
    } else {
        s.len() > 0 && s[0] == p[0] && glob_matches(p.drop_first(), s.drop_first())
    }
}

/// One step of the glob match, on the suffixes from `i` and `j`.
proof fn lemma_glob_step(p: Seq<char>, s: Seq<char>, i: int, j: int)
    requires
        0 <= i < p.len(),
        0 <= j <= s.len(),
    ensures
        glob_matches(p.skip(i), s.skip(j)) == if p[i] == '*' {
            glob_matches(p.skip(i + 1), s.skip(j)) || (j < s.len() && glob_matches(
                p.skip(i),
                s.skip(j + 1),
            ))
        } else {
            j < s.len() && s[j] == p[i] && glob_matches(p.skip(i + 1), s.skip(j + 1))
        },
{
    assert(p.skip(i).drop_first() =~= p.skip(i + 1));
    assert(p.skip(i)[0] == p[i]);
    if j < s.len() {
        assert(s.skip(j).drop_first() =~= s.skip(j + 1));
        assert(s.skip(j)[0] == s[j]);
    }
}

/// The empty glob matches only the empty string.
proof fn lemma_glob_end(p: Seq<char>, s: Seq<char>, j: int)
    requires
        0 <= j <= s.len(),
    ensures
        glob_matches(p.skip(p.len() as int), s.skip(j)) == (j == s.len()),
{
}

/// Whether the whole of `text` matches the glob `pattern` (`*` for any run of characters).
pub fn glob_match(pattern: &str, text: &str) -> (r: bool)
    ensures
        r == glob_matches(pattern@, text@),
{
    let p = chars_of(pattern);
    let s = chars_of(text);
    let m = s.len();
    // `next[j]`, `next_end`: whether p[i+1..] matches s[j..] and s[m..]
    let mut next: Vec<bool> = Vec::new();
    let mut k: usize = 0;
    while k < m
        invariant
            k <= m,
            m == s@.len(),
            next@.len() == k,
            forall|x: int| 0 <= x < k ==> next@[x] == false,
        decreases m - k,
    {
        next.push(false);
        k = k + 1;
    }
    let mut next_end = true;
    proof {
        assert forall|x: int| 0 <= x < m implies next@[x] == glob_matches(p@.skip(p@.len() as int), s@.skip(x)) by {
            lemma_glob_end(p@, s@, x);
        }
        lemma_glob_end(p@, s@, m as int);
    }
    let mut i: usize = p.len();
    while i > 0
        invariant
            i <= p.len(),
            m == s@.len(),
            p@ == pattern@,
            s@ == text@,
            next@.len() == m,
            forall|x: int| 0 <= x < m ==> next@[x] == glob_matches(p@.skip(i as int), s@.skip(x)),
            next_end == glob_matches(p@.skip(i as int), s@.skip(m as int)),
        decreases i,
    {
        i = i - 1;
        let star = p[i] == '*';
        proof {
            lemma_glob_step(p@, s@, i as int, m as int);
        }
        let cur_end = star && next_end;
        let mut cur: Vec<bool> = next.clone();
        let mut j: usize = m;
        while j > 0
            invariant
                j <= m,
                i < p.len(),
                m == s@.len(),
                star == (p@[i as int] == '*'),
                next@.len() == m,
                cur@.len() == m,
                forall|x: int| 0 <= x < m ==> next@[x] == glob_matches(p@.skip(i + 1), s@.skip(x)),
                next_end == glob_matches(p@.skip(i + 1), s@.skip(m as int)),
                cur_end == glob_matches(p@.skip(i as int), s@.skip(m as int)),
                forall|x: int| j <= x < m ==> cur@[x] == glob_matches(p@.skip(i as int), s@.skip(x)),
            decreases j,
        {
            j = j - 1;
            proof {
                lemma_glob_step(p@, s@, i as int, j as int);
            }
            let later = if j + 1 < m { cur[j + 1] } else { cur_end };
            let later_next = if j + 1 < m { next[j + 1] } else { next_end };
            let v = if star { next[j] || later } else { s[j] == p[i] && later_next };
            cur.set(j, v);
        }
        next = cur;
        next_end = cur_end;
    }
    assert(p@.skip(0) =~= p@);
    assert(s@.skip(0) =~= s@);
    if m > 0 {
        next[0]
    } else {
        next_end
    }
}

/// Concatenation of two strings.
pub fn join_text(a: &str, b: &str) -> (r: String)
    ensures
        r@ == a@ + b@,
{
    let mut r = String::new();
    r.append(a);
    r.append(b);
    r
}

/// The character of a decimal digit.
pub open spec fn digit_char(d: nat) -> char {
    if d == 0 { '0' }
    else if d == 1 { '1' }
    else if d == 2 { '2' }
    else if d == 3 { '3' }
    else if d == 4 { '4' }
    else if d == 5 { '5' }
    else if d == 6 { '6' }
    else if d == 7 { '7' }
    else if d == 8 { '8' }
    else { '9' }
}

/// The decimal numeral of `n`, without leading zeros (what `n.to_string()` gives).
pub open spec fn decimal(n: nat) -> Seq<char>
    decreases n,
{
    if n < 10 {
        seq![digit_char(n)]
    } else {
        decimal(n / 10).push(digit_char(n % 10))
    }
}

fn digit(d: usize) -> (c: char)
    requires
        d < 10,
    ensures
        c == digit_char(d as nat),
{
    if d == 0 { '0' }
    else if d == 1 { '1' }
    else if d == 2 { '2' }
    else if d == 3 { '3' }
    else if d == 4 { '4' }
    else if d == 5 { '5' }
    else if d == 6 { '6' }
    else if d == 7 { '7' }
    else if d == 8 { '8' }
    else { '9' }
}

fn push_decimal(n: usize, out: &mut Vec<char>)
    ensures
        final(out)@ == old(out)@ + decimal(n as nat),
    decreases n,
{
    if n >= 10 {
        push_decimal(n / 10, out);
    }
    out.push(digit(n % 10));
    assert(final(out)@ =~= old(out)@ + decimal(n as nat)) by {
        if n >= 10 {
            assert(decimal(n as nat) == decimal((n / 10) as nat).push(digit_char((n % 10) as nat)));
        }
    }
}

/// The decimal numeral of `n`.
pub fn decimal_string(n: usize) -> (r: String)
    ensures
        r@ == decimal(n as nat),
{
    let mut out: Vec<char> = Vec::new();
    push_decimal(n, &mut out);
    assert(out@ =~= decimal(n as nat));
    string_of(&out)
}


/// Replacing dashes leaves no dash.
pub proof fn lemma_underscored_has_no_dash(s: Seq<char>)
    ensures
        !underscored(s).contains('-'),
{
    if underscored(s).contains('-') {
        let i = choose|i: int| 0 <= i < underscored(s).len() && underscored(s)[i] == '-';
        assert(underscored(s)[i] == dash_to_underscore(s[i]));
    }
}

/// Replacing dashes a second time changes nothing.
pub proof fn lemma_underscored_idempotent(s: Seq<char>)
    ensures
        underscored(underscored(s)) == underscored(s),
{
    assert(underscored(underscored(s)) =~= underscored(s));
}

/// The number that a string of decimal digits denotes.
pub open spec fn numeral_value(s: Seq<char>) -> int
    decreases s.len(),
{
    if s.len() == 0 {
        0
    } else {
        numeral_value(s.drop_last()) * 10 + (s.last() as int - '0' as int)
    }
}

proof fn lemma_digit_char_value(d: nat)
    requires
        d < 10,
    ensures
        digit_char(d) as int - '0' as int == d,
        '0' <= digit_char(d) <= '9',
        d > 0 ==> digit_char(d) != '0',
{
}

/// The decimal numeral of `n` is made of digits, starts with a nonzero digit
/// unless it is `0`, and denotes `n`.
pub proof fn lemma_decimal_denotes(n: nat)
    ensures
        decimal(n).len() > 0,
        forall|i: int| 0 <= i < decimal(n).len() ==> '0' <= #[trigger] decimal(n)[i] <= '9',
        decimal(n).len() > 1 <==> n >= 10,
        decimal(n).len() > 1 ==> decimal(n)[0] != '0',
        numeral_value(decimal(n)) == n,
    decreases n,
{
    lemma_digit_char_value(n % 10);
    if n < 10 {
        assert(decimal(n).drop_last() =~= Seq::<char>::empty());
        assert(numeral_value(Seq::<char>::empty()) == 0);
        assert(numeral_value(decimal(n)) == numeral_value(decimal(n).drop_last()) * 10 + (
        decimal(n).last() as int - '0' as int));
    } else {
        lemma_decimal_denotes(n / 10);
        if n / 10 < 10 {
            lemma_digit_char_value(n / 10);
        }
        let d = decimal(n);
        assert(d.drop_last() =~= decimal(n / 10));
        assert(d.last() == digit_char(n % 10));
        vstd::arithmetic::div_mod::lemma_fundamental_div_mod(n as int, 10);
        assert(numeral_value(d) == numeral_value(decimal(n / 10)) * 10 + (n % 10));
        assert forall|i: int| 0 <= i < d.len() implies '0' <= #[trigger] d[i] <= '9' by {
            if i < d.len() - 1 {
                assert(d[i] == decimal(n / 10)[i]);
            }
        }
        assert(d[0] == decimal(n / 10)[0]);
    }
}

} // verus!
