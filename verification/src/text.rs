//! Text: decimal numerals, joining and splitting, and the order of strings.

use vstd::prelude::*;
use vstd::string::*;

verus! {

// ---------------------------------------------------------------- decimal numerals

/// The decimal digit for `d`.
pub open spec fn digit(d: nat) -> char {
    (48 + d) as char
}

/// The decimal numeral of `n`, without leading zeros.
pub open spec fn natural(n: nat) -> Seq<char>
    decreases n,
{
    if n < 10 {
        seq![digit(n)]
    } else {
        natural(n / 10).push(digit(n % 10))
    }
}

/// The decimal numeral of `v`, with a leading `-` where `v` is negative.
pub open spec fn decimal(v: int) -> Seq<char> {
    if v < 0 {
        seq!['-'] + natural((-v) as nat)
    } else {
        natural(v as nat)
    }
}

fn digit_text(d: u8) -> (r: &'static str)
    requires
        d < 10,
    ensures
        r@ == seq![digit(d as nat)],
{
    proof {
        reveal_strlit("0");
        reveal_strlit("1");
        reveal_strlit("2");
        reveal_strlit("3");
        reveal_strlit("4");
        reveal_strlit("5");
        reveal_strlit("6");
        reveal_strlit("7");
        reveal_strlit("8");
        reveal_strlit("9");
    }
    let r: &'static str = match d {
        0 => "0",
        1 => "1",
        2 => "2",
        3 => "3",
        4 => "4",
        5 => "5",
        6 => "6",
        7 => "7",
        8 => "8",
        _ => "9",
    };
    assert(r@ =~= seq![digit(d as nat)]);
    r
}

fn push_natural(out: &mut String, n: u128)
    ensures
        final(out)@ == old(out)@ + natural(n as nat),
    decreases n,
{
    if n >= 10 {
        push_natural(out, n / 10);
    }
    out.append(digit_text((n % 10) as u8));
    assert(out@ =~= old(out)@ + natural(n as nat));
}

/// Appends the decimal numeral of `v` to `out`.
pub fn push_decimal(out: &mut String, v: i128)
    ensures
        final(out)@ == old(out)@ + decimal(v as int),
{
    if v < 0 {
        proof {
            reveal_strlit("-");
        }
        out.append("-");
        assert("-"@ =~= seq!['-']);
        let magnitude: u128 = (-(v + 1)) as u128 + 1;
        push_natural(out, magnitude);
        assert(out@ =~= old(out)@ + decimal(v as int));
    } else {
        push_natural(out, v as u128);
    }
}

/// The decimal numeral of `v`.
pub fn decimal_text(v: i128) -> (r: String)
    ensures
        r@ == decimal(v as int),
{
    let mut out: String = String::new();
    push_decimal(&mut out, v);
    assert(out@ =~= decimal(v as int));
    out
}

// ---------------------------------------------------------------- reading numerals

/// `s` is a nonempty run of ASCII digits.
pub open spec fn is_numeral(s: Seq<char>) -> bool {
    &&& s.len() > 0
    &&& forall|i: int| 0 <= i < s.len() ==> 48 <= (#[trigger] s[i]) as int <= 57
}

/// The number that a run of decimal digits stands for.
pub open spec fn numeral_value(s: Seq<char>) -> nat
    decreases s.len(),
{
    if s.len() == 0 {
        0
    } else {
        (10 * numeral_value(s.drop_last()) + (s.last() as int - 48)) as nat
    }
}

/// The number that `s` stands for, where `s` is a numeral with at most one sign before it.
/// A minus sign is understood where `signed` holds.
pub open spec fn parsed(s: Seq<char>, signed: bool) -> Option<int> {
    if signed && s.len() > 0 && s[0] == '-' && is_numeral(s.skip(1)) {
        Some(-numeral_value(s.skip(1)))
    } else if s.len() > 0 && s[0] == '+' && is_numeral(s.skip(1)) {
        Some(numeral_value(s.skip(1)) as int)
    } else if is_numeral(s) {
        Some(numeral_value(s) as int)
    } else {
        None
    }
}

/// The characters of `s`.
pub fn characters(s: &str) -> (r: Vec<char>)
    ensures
        r@ == s@,
{
    let mut v: Vec<char> = Vec::new();
    for c in it: s.chars()
        invariant
            it.seq() == s@,
            v@ == s@.take(it.index() as int),
    {
        v.push(c);
    }
    v
}

fn code_point(c: char) -> (r: u32)
    ensures
        r == c as int,
{
    c as u32
}

const NUMERAL_LIMIT: u128 = 0x1_0000_0000_0000_0000;

proof fn lemma_numeral_grows(s: Seq<char>, i: int)
    requires
        0 <= i <= s.len(),
        forall|k: int| 0 <= k < s.len() ==> 48 <= (#[trigger] s[k]) as int <= 57,
    ensures
        numeral_value(s.take(i)) <= numeral_value(s),
    decreases s.len(),
{
    if i == s.len() {
        assert(s.take(i) =~= s);
    } else {
        let t = s.drop_last();
        assert forall|k: int| 0 <= k < t.len() implies 48 <= (#[trigger] t[k]) as int <= 57 by {
            assert(t[k] == s[k]);
        }
        lemma_numeral_grows(t, i);
        assert(t.take(i) =~= s.take(i));
        assert(48 <= s[s.len() - 1] as int);
    }
}

/// Reads the digits of `s` from index `from` on; `None` where that is no numeral, or where its
/// value does not fit in 64 bits.
fn read_digits(s: &Vec<char>, from: usize) -> (r: Option<u64>)
    requires
        from <= s@.len(),
    ensures
        match r {
            Some(v) => is_numeral(s@.skip(from as int)) && numeral_value(s@.skip(from as int))
                == v,
            None => is_numeral(s@.skip(from as int)) ==> numeral_value(s@.skip(from as int))
                > u64::MAX,
        },
{
    let ghost body = s@.skip(from as int);
    if from == s.len() {
        return None;
    }
    let mut value: u128 = 0;
    let mut i: usize = from;
    while i < s.len()
        invariant
            from <= i <= s@.len(),
            body == s@.skip(from as int),
            forall|k: int|
                0 <= k < i - from ==> 48 <= (#[trigger] body[k]) as int <= 57,
            value == numeral_value(body.take(i - from)),
            value < NUMERAL_LIMIT,
        decreases s.len() - i,
    {
        let c: u32 = code_point(s[i]);
        assert(body[i - from] == s@[i as int]);
        if c < 48 || c > 57 {
            return None;
        }
        proof {
            assert(body.take(i - from + 1).drop_last() =~= body.take(i - from));
        }
        value = 10 * value + (c - 48) as u128;
        i = i + 1;
        if value >= NUMERAL_LIMIT {
            proof {
                if is_numeral(body) {
                    lemma_numeral_grows(body, i - from);
                }
            }
            return None;
        }
    }
    proof {
        assert(body.take(i - from) =~= body);
    }
    Some(value as u64)
}

/// The signed 64-bit integer that `s` stands for.
pub open spec fn i64_of(s: Seq<char>) -> Option<i64> {
    match parsed(s, true) {
        Some(v) => if i64::MIN <= v <= i64::MAX {
            Some(v as i64)
        } else {
            None
        },
        None => None,
    }
}

/// The `usize` that `s` stands for.
pub open spec fn usize_of(s: Seq<char>) -> Option<usize> {
    match parsed(s, false) {
        Some(v) => if v <= usize::MAX {
            Some(v as usize)
        } else {
            None
        },
        None => None,
    }
}

/// Reads a signed 64-bit integer: digits, with at most one `+` or `-` before them.
pub fn parse_i64(s: &str) -> (r: Option<i64>)
    ensures
        r == i64_of(s@),
{
    let chars: Vec<char> = characters(s);
    assert(chars@.skip(0) =~= chars@);
    if chars.len() > 0 && chars[0] == '-' {
        assert(!is_numeral(chars@)) by {
            assert((chars@[0] as int) < 48);
        }
        match read_digits(&chars, 1) {
            Some(v) => if v < 0x8000_0000_0000_0000 {
                Some(-(v as i64))
            } else if v == 0x8000_0000_0000_0000 {
                Some(i64::MIN)
            } else {
                None
            },
            None => None,
        }
    } else {
        let plus: bool = chars.len() > 0 && chars[0] == '+';
        if plus {
            assert(!is_numeral(chars@)) by {
                assert((chars@[0] as int) < 48);
            }
        }
        match read_digits(&chars, if plus { 1 } else { 0 }) {
            Some(v) => if v < 0x8000_0000_0000_0000 {
                Some(v as i64)
            } else {
                None
            },
            None => None,
        }
    }
}

/// Reads a `usize`: digits, with at most one `+` before them.
pub fn parse_usize(s: &str) -> (r: Option<usize>)
    ensures
        r == usize_of(s@),
{
    let chars: Vec<char> = characters(s);
    assert(chars@.skip(0) =~= chars@);
    let plus: bool = chars.len() > 0 && chars[0] == '+';
    if plus {
        assert(!is_numeral(chars@)) by {
            assert((chars@[0] as int) < 48);
        }
    }
    match read_digits(&chars, if plus { 1 } else { 0 }) {
        Some(v) => if v <= usize::MAX as u64 {
            Some(v as usize)
        } else {
            None
        },
        None => None,
    }
}

pub proof fn lemma_natural(n: nat)
    ensures
        is_numeral(natural(n)),
        numeral_value(natural(n)) == n,
    decreases n,
{
    if n < 10 {
        assert(natural(n).drop_last() =~= Seq::<char>::empty());
        assert(numeral_value(natural(n).drop_last()) == 0);
        assert(natural(n).last() as int == 48 + n);
    } else {
        lemma_natural(n / 10);
        assert(natural(n).last() as int == 48 + n % 10);
        assert(natural(n).drop_last() =~= natural(n / 10));
        assert forall|i: int| 0 <= i < natural(n).len() implies 48 <= (
        #[trigger] natural(n)[i]) as int <= 57 by {
            if i < natural(n / 10).len() {
                assert(natural(n)[i] == natural(n / 10)[i]);
            }
        }
    }
}

/// Reading the decimal numeral of a number gives the number back.
pub proof fn law_decimal_read_back(v: i64, n: usize)
    ensures
        i64_of(decimal(v as int)) == Some(v),
        usize_of(decimal(n as int)) == Some(n),
{
    lemma_natural(n as nat);
    assert(48 <= decimal(n as int)[0] as int);
    if v < 0 {
        lemma_natural((-v) as nat);
        assert(decimal(v as int).skip(1) =~= natural((-v) as nat));
    } else {
        lemma_natural(v as nat);
        assert(48 <= decimal(v as int)[0] as int);
    }
}

// ---------------------------------------------------------------- joining and splitting

/// The parts one behind the other, with `separator` between each two.
pub open spec fn joined(parts: Seq<Seq<char>>, separator: Seq<char>) -> Seq<char>
    decreases parts.len(),
{
    if parts.len() == 0 {
        Seq::empty()
    } else if parts.len() == 1 {
        parts[0]
    } else {
        joined(parts.drop_last(), separator) + separator + parts.last()
    }
}

/// The characters of each string.
pub open spec fn views(parts: Seq<String>) -> Seq<Seq<char>> {
    parts.map_values(|p: String| p@)
}

/// Splits `s` at every comma: the parts hold no comma, and joined by commas they are `s` again.
pub fn split_commas(s: &str) -> (r: Vec<String>)
    ensures
        r@.len() > 0,
        joined(views(r@), seq![',']) == s@,
        forall|i: int| 0 <= i < r@.len() ==> !(#[trigger] r@[i])@.contains(','),
{
    let chars: Vec<char> = characters(s);
    let mut parts: Vec<String> = Vec::new();
    let mut start: usize = 0;
    let mut i: usize = 0;
    while i < chars.len()
        invariant
            chars@ == s@,
            start <= i <= chars@.len(),
            forall|k: int| start <= k < i ==> s@[k] != ',',
            start > 0 <==> parts@.len() > 0,
            start > 0 ==> joined(views(parts@), seq![',']) + seq![','] == s@.take(start as int),
            forall|k: int| 0 <= k < parts@.len() ==> !(#[trigger] parts@[k])@.contains(','),
        decreases chars.len() - i,
    {
        if chars[i] == ',' {
            let ghost before = parts@;
            let part: String = s.substring_char(start, i).to_owned();
            parts.push(part);
            proof {
                assert(views(parts@).drop_last() =~= views(before));
                assert(views(parts@).last() == part@);
                assert(s@.take(i + 1) =~= s@.take(start as int) + part@ + seq![',']);
                assert(joined(views(parts@), seq![',']) =~= s@.take(start as int) + part@);
            }
            start = i + 1;
        }
        i = i + 1;
    }
    let ghost before = parts@;
    let part: String = s.substring_char(start, chars.len()).to_owned();
    parts.push(part);
    proof {
        assert(views(parts@).drop_last() =~= views(before));
        assert(views(parts@).last() == part@);
        assert(s@ =~= s@.take(start as int) + part@);
        assert(joined(views(parts@), seq![',']) =~= s@.take(start as int) + part@);
    }
    parts
}

/// Two or more parts joined by commas hold a comma, and behind the last one stands the last part.
proof fn lemma_last_comma(parts: Seq<Seq<char>>)
    requires
        parts.len() >= 2,
        !parts.last().contains(','),
    ensures
        ({
            let all = joined(parts, seq![',']);
            let at = all.len() - parts.last().len() - 1;
            &&& at >= 0
            &&& all[at] == ','
            &&& forall|k: int| at < k < all.len() ==> all[k] != ','
            &&& all.take(at) == joined(parts.drop_last(), seq![','])
            &&& all.skip(at + 1) == parts.last()
        }),
{
    let all = joined(parts, seq![',']);
    let head = joined(parts.drop_last(), seq![',']);
    let at = head.len() as int;
    assert(all[at] == ',');
    assert forall|k: int| at < k < all.len() implies all[k] != ',' by {
        assert(all[k] == parts.last()[k - at - 1]);
    }
    assert(all.take(at) =~= head);
    assert(all.skip(at + 1) =~= parts.last());
}

/// There is only one way to split a text at its commas.
pub proof fn law_one_split(a: Seq<Seq<char>>, b: Seq<Seq<char>>)
    requires
        a.len() > 0,
        b.len() > 0,
        joined(a, seq![',']) == joined(b, seq![',']),
        forall|i: int| 0 <= i < a.len() ==> !(#[trigger] a[i]).contains(','),
        forall|i: int| 0 <= i < b.len() ==> !(#[trigger] b[i]).contains(','),
    ensures
        a == b,
    decreases a.len(),
{
    let all = joined(a, seq![',']);
    if a.len() >= 2 {
        assert(!a[a.len() - 1].contains(','));
        lemma_last_comma(a);
    }
    if b.len() >= 2 {
        assert(!b[b.len() - 1].contains(','));
        lemma_last_comma(b);
    }
    if a.len() == 1 {
        assert(!a[0].contains(','));
        assert(b.len() == 1) by {
            if b.len() >= 2 {
                assert(a[0].contains(all[all.len() - b.last().len() - 1]));
            }
        }
        assert(a =~= b);
    } else {
        if b.len() == 1 {
            assert(!b[0].contains(','));
            assert(b[0].contains(all[all.len() - a.last().len() - 1]));
        }
        let at = all.len() - a.last().len() - 1;
        let bt = all.len() - b.last().len() - 1;
        assert(at == bt);
        let p = a.drop_last();
        let q = b.drop_last();
        assert forall|i: int| 0 <= i < p.len() implies !(#[trigger] p[i]).contains(',') by {
            assert(p[i] == a[i]);
        }
        assert forall|i: int| 0 <= i < q.len() implies !(#[trigger] q[i]).contains(',') by {
            assert(q[i] == b[i]);
        }
        law_one_split(p, q);
        assert(a =~= p.push(a.last()));
        assert(b =~= q.push(b.last()));
    }
}

// ---------------------------------------------------------------- the order of strings

/// `a` is not after `b` in the lexicographic order by code points.
pub open spec fn not_after(a: Seq<char>, b: Seq<char>) -> bool
    decreases a.len(),
{
    if a.len() == 0 {
        true
    } else if b.len() == 0 {
        false
    } else if a[0] != b[0] {
        (a[0] as int) < (b[0] as int)
    } else {
        not_after(a.skip(1), b.skip(1))
    }
}

pub proof fn lemma_not_after_total(a: Seq<char>, b: Seq<char>)
    ensures
        not_after(a, b) || not_after(b, a),
    decreases a.len(),
{
    if a.len() > 0 && b.len() > 0 && a[0] == b[0] {
        lemma_not_after_total(a.skip(1), b.skip(1));
    }
}

pub proof fn lemma_not_after_antisymmetric(a: Seq<char>, b: Seq<char>)
    requires
        not_after(a, b),
        not_after(b, a),
    ensures
        a == b,
    decreases a.len(),
{
    if a.len() > 0 && b.len() > 0 {
        lemma_not_after_antisymmetric(a.skip(1), b.skip(1));
        assert(a =~= seq![a[0]] + a.skip(1));
        assert(b =~= seq![b[0]] + b.skip(1));
    } else {
        assert(a =~= b);
    }
}

pub proof fn lemma_not_after_transitive(a: Seq<char>, b: Seq<char>, c: Seq<char>)
    requires
        not_after(a, b),
        not_after(b, c),
    ensures
        not_after(a, c),
    decreases a.len(),
{
    if a.len() > 0 && b.len() > 0 && c.len() > 0 && a[0] == b[0] && b[0] == c[0] {
        lemma_not_after_transitive(a.skip(1), b.skip(1), c.skip(1));
    }
}

/// Whether `a` is not after `b` in the lexicographic order by code points.
pub fn text_not_after(a: &str, b: &str) -> (r: bool)
    ensures
        r == not_after(a@, b@),
{
    let left: Vec<char> = characters(a);
    let right: Vec<char> = characters(b);
    let mut i: usize = 0;
    assert(left@.skip(0) =~= left@);
    assert(right@.skip(0) =~= right@);
    while i < left.len() && i < right.len()
        invariant
            left@ == a@,
            right@ == b@,
            i <= left@.len(),
            i <= right@.len(),
            not_after(left@, right@) == not_after(left@.skip(i as int), right@.skip(i as int)),
        decreases left.len() - i,
    {
        if left[i] != right[i] {
            return code_point(left[i]) < code_point(right[i]);
        }
        assert(left@.skip(i as int).skip(1) =~= left@.skip(i + 1));
        assert(right@.skip(i as int).skip(1) =~= right@.skip(i + 1));
        i = i + 1;
    }
    i == left.len()
}

/// Whether the two texts hold the same characters.
pub fn same_text(a: &str, b: &str) -> (r: bool)
    ensures
        r == (a@ == b@),
{
    let left: String = a.to_owned();
    let right: String = b.to_owned();
    left == right
}

} // verus!
