use vstd::prelude::*;

verus! {

/// The pieces of `s` between separators, and the piece after the last
/// separator so far.
pub open spec fn split_acc(s: Seq<char>, sep: char) -> (Seq<Seq<char>>, Seq<char>)
    decreases s.len(),
{
    if s.len() == 0 {
        (Seq::empty(), Seq::empty())
    } else {
        let (ps, cur) = split_acc(s.drop_last(), sep);
        if s.last() == sep {
            (ps.push(cur), Seq::empty())
        } else {
            (ps, cur.push(s.last()))
        }
    }
}

/// `s` split at every `sep`: n separators give n + 1 pieces, possibly empty.
pub open spec fn split(s: Seq<char>, sep: char) -> Seq<Seq<char>> {
    let (ps, cur) = split_acc(s, sep);
    ps.push(cur)
}

/// The lines of a text: the pieces between newlines, where a newline at the
/// very end starts no further line.
pub open spec fn text_lines(s: Seq<char>) -> Seq<Seq<char>> {
    let (ps, cur) = split_acc(s, '\n');
    if cur.len() == 0 { ps } else { ps.push(cur) }
}

/// The characters Rust counts as white space.
pub open spec fn is_ws(c: char) -> bool {
    ||| c == ' ' || c == '\t' || c == '\n' || c == '\x0B' || c == '\x0C' || c == '\r'
    ||| c == '\u{85}' || c == '\u{A0}' || c == '\u{1680}'
    ||| ('\u{2000}' <= c && c <= '\u{200A}')
    ||| c == '\u{2028}' || c == '\u{2029}' || c == '\u{202F}' || c == '\u{205F}' || c == '\u{3000}'
}

pub fn is_ws_exec(c: char) -> (b: bool)
    ensures
        b == is_ws(c),
{
    c == ' ' || c == '\t' || c == '\n' || c == '\x0B' || c == '\x0C' || c == '\r' || c == '\u{85}' || c == '\u{A0}'
        || c == '\u{1680}' || ('\u{2000}' <= c && c <= '\u{200A}') || c == '\u{2028}' || c == '\u{2029}'
        || c == '\u{202F}' || c == '\u{205F}' || c == '\u{3000}'
}

/// The number of white space characters `s` starts with.
pub open spec fn lead_ws(s: Seq<char>) -> nat
    decreases s.len(),
{
    if s.len() > 0 && is_ws(s[0]) { 1 + lead_ws(s.drop_first()) } else { 0 }
}

/// The number of white space characters `s` ends with.
pub open spec fn trail_ws(s: Seq<char>) -> nat
    decreases s.len(),
{
    if s.len() > 0 && is_ws(s.last()) { 1 + trail_ws(s.drop_last()) } else { 0 }
}

/// `s` without the white space it starts and ends with.
pub open spec fn trim(s: Seq<char>) -> Seq<char> {
    let a = lead_ws(s);
    if a == s.len() { Seq::empty() } else { s.subrange(a as int, s.len() - trail_ws(s)) }
}

/// The fields of a line: its tab-separated pieces, trimmed.
pub open spec fn line_fields(line: Seq<char>) -> Seq<Seq<char>> {
    split(line, '\t').map_values(|f: Seq<char>| trim(f))
}

pub open spec fn is_digit(c: char) -> bool {
    '0' <= c && c <= '9'
}

/// The value of a string of decimal digits.
pub open spec fn digits_val(s: Seq<char>) -> nat
    decreases s.len(),
{
    if s.len() == 0 {
        0
    } else {
        10 * digits_val(s.drop_last()) + (s.last() as nat - '0' as nat) as nat
    }
}

/// `s` without a leading sign.
pub open spec fn unsigned_part(s: Seq<char>) -> Seq<char> {
    if s.len() > 0 && (s[0] == '+' || s[0] == '-') { s.drop_first() } else { s }
}

pub open spec fn all_digits(d: Seq<char>) -> bool {
    forall|i: int| 0 <= i < d.len() ==> is_digit(#[trigger] d[i])
}

/// An integer as Rust reads it: an optional sign, then one or more decimal
/// digits.
pub open spec fn parse_int(s: Seq<char>) -> Option<int> {
    let d = unsigned_part(s);
    if d.len() > 0 && all_digits(d) {
        Some(if s[0] == '-' { -(digits_val(d) as int) } else { digits_val(d) as int })
    } else {
        None
    }
}

/// A 64-bit integer as Rust reads it: an integer in range.
pub open spec fn parse_i64(s: Seq<char>) -> Option<i64> {
    match parse_int(s) {
        Some(v) => if i64::MIN <= v <= i64::MAX { Some(v as i64) } else { None },
        None => None,
    }
}

/// The characters of a string.
pub fn to_chars(s: &str) -> (r: Vec<char>)
    ensures
        r@ == s@,
{
    let n = s.unicode_len();
    let mut r: Vec<char> = Vec::new();
    let mut i: usize = 0;
    while i < n
        invariant
            0 <= i <= n,
            n == s@.len(),
            r@ == s@.take(i as int),
        decreases n - i,
    {
        r.push(s.get_char(i));
        i = i + 1;
        assert(r@ =~= s@.take(i as int));
    }
    assert(s@.take(i as int) =~= s@);
    r
}

/// Splits `s` at every `sep`.
pub fn split_exec(s: &[char], sep: char) -> (r: Vec<Vec<char>>)
    ensures
        r@.map_values(|p: Vec<char>| p@) == split(s@, sep),
{
    let mut ps: Vec<Vec<char>> = Vec::new();
    let mut cur: Vec<char> = Vec::new();
    let mut i: usize = 0;
    while i < s.len()
        invariant
            0 <= i <= s@.len(),
            split_acc(s@.take(i as int), sep) == (ps@.map_values(|p: Vec<char>| p@), cur@),
        decreases s@.len() - i,
    {
        proof {
            assert(s@.take(i + 1).drop_last() =~= s@.take(i as int));
            assert(s@.take(i + 1).last() == s@[i as int]);
        }
        if s[i] == sep {
            let done = cur;
            ps.push(done);
            cur = Vec::new();
            proof {
                assert(cur@ =~= Seq::<char>::empty());
            }
        } else {
            cur.push(s[i]);
        }
        assert(ps@.map_values(|p: Vec<char>| p@) =~= split_acc(s@.take(i + 1), sep).0);
        i = i + 1;
    }
    proof {
        assert(s@.take(i as int) =~= s@);
    }
    ps.push(cur);
    assert(ps@.map_values(|p: Vec<char>| p@) =~= split(s@, sep));
    ps
}

/// The lines of a text.
pub fn lines_exec(s: &[char]) -> (r: Vec<Vec<char>>)
    ensures
        r@.map_values(|p: Vec<char>| p@) == text_lines(s@),
{
    let mut ps = split_exec(s, '\n');
    let n = ps.len();
    assert(split(s@, '\n').len() >= 1);
    assert(ps@.map_values(|p: Vec<char>| p@).len() == ps@.len());
    assert(ps@.map_values(|p: Vec<char>| p@)[n - 1] == ps@[n - 1]@);
    assert(ps@[n - 1]@ == split_acc(s@, '\n').1);
    if ps[n - 1].len() == 0 {
        let ghost full = ps@;
        let _ = ps.pop();
        assert(ps@ =~= full.drop_last());
        assert(ps@.map_values(|p: Vec<char>| p@) =~= full.map_values(|p: Vec<char>| p@).drop_last());
        assert(ps@.map_values(|p: Vec<char>| p@) =~= split_acc(s@, '\n').0);
    }
    ps
}

/// `s` without its leading and trailing white space.
pub fn trim_exec(s: &[char]) -> (r: Vec<char>)
    ensures
        r@ == trim(s@),
{
    let n = s.len();
    let mut a: usize = 0;
    assert(s@.subrange(0, n as int) =~= s@);
    while a < n && is_ws_exec(s[a])
        invariant
            0 <= a <= n,
            n == s@.len(),
            lead_ws(s@) == a + lead_ws(s@.subrange(a as int, n as int)),
        decreases n - a,
    {
        assert(s@.subrange(a as int, n as int).drop_first() =~= s@.subrange(a + 1, n as int));
        a = a + 1;
    }
    if a == n {
        assert(lead_ws(s@.subrange(a as int, n as int)) == 0);
        return Vec::new();
    }
    assert(lead_ws(s@.subrange(a as int, n as int)) == 0);
    let mut j: usize = n;
    assert(s@.subrange(0, n as int) =~= s@);
    while j > a && is_ws_exec(s[j - 1])
        invariant
            a < n,
            a <= j <= n,
            n == s@.len(),
            !is_ws(s@[a as int]),
            forall|q: int| j <= q < n ==> is_ws(#[trigger] s@[q]),
            trail_ws(s@) == (n - j) + trail_ws(s@.subrange(0, j as int)),
        decreases j,
    {
        assert(s@.subrange(0, j as int).drop_last() =~= s@.subrange(0, j - 1));
        j = j - 1;
    }
    assert(j > a);
    assert(trail_ws(s@.subrange(0, j as int)) == 0);
    let mut r: Vec<char> = Vec::new();
    let mut k: usize = a;
    while k < j
        invariant
            a <= k <= j,
            j <= n,
            n == s@.len(),
            r@ == s@.subrange(a as int, k as int),
        decreases j - k,
    {
        r.push(s[k]);
        k = k + 1;
        assert(r@ =~= s@.subrange(a as int, k as int));
    }
    r
}

pub fn is_digit_exec(c: char) -> (b: bool)
    ensures
        b == is_digit(c),
{
    '0' <= c && c <= '9'
}

/// A longer run of digits has at least the value of its prefixes.
pub proof fn lemma_digits_val_mono(d: Seq<char>, k: int)
    requires
        0 <= k <= d.len(),
    ensures
        digits_val(d.take(k)) <= digits_val(d),
    decreases d.len(),
{
    if k < d.len() {
        lemma_digits_val_mono(d.drop_last(), k);
        assert(d.drop_last().take(k) =~= d.take(k));
    } else {
        assert(d.take(k) =~= d);
    }
}

/// Reads a 64-bit integer as Rust does.
pub fn parse_i64_exec(s: &[char]) -> (r: Option<i64>)
    ensures
        r == parse_i64(s@),
{
    let n = s.len();
    if n == 0 {
        return None;
    }
    let neg = s[0] == '-';
    let start: usize = if s[0] == '+' || s[0] == '-' { 1 } else { 0 };
    let ghost d = unsigned_part(s@);
    assert(d =~= s@.subrange(start as int, n as int));
    if start == n {
        return None;
    }
    let mut mag: u128 = 0;
    let mut i: usize = start;
    assert(d.take(0) =~= Seq::<char>::empty());
    while i < n
        invariant
            start <= i <= n,
            n == s@.len(),
            d == s@.subrange(start as int, n as int),
            d == unsigned_part(s@),
            neg == (s@[0] == '-'),
            n > 0,
            mag == digits_val(d.take(i - start)),
            mag <= 0x8000_0000_0000_0000u128,
            all_digits(d.take(i - start)),
        decreases n - i,
    {
        if !is_digit_exec(s[i]) {
            assert(!is_digit(d[i - start]));
            assert(!all_digits(d));
            assert(parse_int(s@) is None);
            return None;
        }
        let dg = (s[i] as u32 - '0' as u32) as u128;
        let next = mag * 10 + dg;
        proof {
            let t = d.take(i - start + 1);
            assert(t.drop_last() =~= d.take(i - start));
            assert(t.last() == d[i - start]);
            assert(next == digits_val(t));
        }
        if next > 0x8000_0000_0000_0000u128 {
            proof {
                if all_digits(d) {
                    lemma_digits_val_mono(d, i - start + 1);
                    assert(digits_val(d) > 0x8000_0000_0000_0000u128);
                    assert(parse_int(s@) == Some(if neg { -(digits_val(d) as int) } else { digits_val(d) as int }));
                } else {
                    assert(parse_int(s@) is None);
                }
            }
            return None;
        }
        mag = next;
        i = i + 1;
    }
    assert(d.take(i - start) =~= d);
    if neg {
        if mag == 0x8000_0000_0000_0000u128 {
            Some(i64::MIN)
        } else {
            Some(-(mag as i64))
        }
    } else {
        if mag > 0x7fff_ffff_ffff_ffffu128 {
            None
        } else {
            Some(mag as i64)
        }
    }
}

/// A text has at most one more line than characters.
pub proof fn lemma_lines_count(s: Seq<char>)
    ensures
        text_lines(s).len() <= s.len() + 1,
{
    lemma_split_count(s, '\n');
}

pub proof fn lemma_split_count(s: Seq<char>, sep: char)
    ensures
        split_acc(s, sep).0.len() <= s.len(),
    decreases s.len(),
{
    if s.len() > 0 {
        lemma_split_count(s.drop_last(), sep);
    }
}

} // verus!
