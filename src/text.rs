use vstd::prelude::*;

verus! {

/// Unicode's White_Space property, the separator of scene descriptions.
pub open spec fn is_space(c: char) -> bool {
    let u = c as u32;
    u == 0x20 || (0x09 <= u && u <= 0x0d) || u == 0x85 || u == 0xa0 || u == 0x1680 || (0x2000
        <= u && u <= 0x200a) || u == 0x2028 || u == 0x2029 || u == 0x202f || u == 0x205f || u
        == 0x3000
}

/// Reading `s` left to right: the words completed so far, and the word being read.
pub open spec fn scan(s: Seq<char>) -> (Seq<Seq<char>>, Seq<char>)
    decreases s.len(),
{
    if s.len() == 0 {
        (seq![], seq![])
    } else {
        let prev = scan(s.drop_last());
        if is_space(s.last()) {
            (if prev.1.len() == 0 { prev.0 } else { prev.0.push(prev.1) }, seq![])
        } else {
            (prev.0, prev.1.push(s.last()))
        }
    }
}

/// The maximal runs of non-space characters of `s`, in order.
pub open spec fn words(s: Seq<char>) -> Seq<Seq<char>> {
    let st = scan(s);
    if st.1.len() == 0 {
        st.0
    } else {
        st.0.push(st.1)
    }
}

/// The texts of a sequence of character vectors.
pub open spec fn texts(v: Seq<Vec<char>>) -> Seq<Seq<char>> {
    v.map_values(|t: Vec<char>| t@)
}

pub fn is_space_char(c: char) -> (r: bool)
    ensures
        r == is_space(c),
{
    let u = c as u32;
    u == 0x20 || (0x09 <= u && u <= 0x0d) || u == 0x85 || u == 0xa0 || u == 0x1680 || (0x2000
        <= u && u <= 0x200a) || u == 0x2028 || u == 0x2029 || u == 0x202f || u == 0x205f || u
        == 0x3000
}

pub open spec fn is_digit(c: char) -> bool {
    '0' <= c && c <= '9'
}

/// How many decimal digits stand in `s` from position `i` on.
pub open spec fn digit_run(s: Seq<char>, i: int) -> int
    decreases s.len() - i,
{
    if 0 <= i < s.len() && is_digit(s[i]) {
        1 + digit_run(s, i + 1)
    } else {
        0
    }
}

pub open spec fn is_sign(c: char) -> bool {
    c == '+' || c == '-'
}

/// Length of an optional sign at position `i` of `s`.
pub open spec fn sign_len(s: Seq<char>, i: int) -> int {
    if 0 <= i < s.len() && is_sign(s[i]) {
        1
    } else {
        0
    }
}

/// A number as a scene description may write it: positional, or one of the
/// words for infinity and not-a-number.
pub open spec fn is_decimal(t: Seq<char>) -> bool {
    is_positional(t) || is_special(t)
}

/// `c` is the lowercase ASCII letter `l`, in either case.
pub open spec fn same_letter(c: char, l: char) -> bool {
    c == l || c as u32 + 32 == l as u32
}

/// `s` spells the lowercase word `w`, ignoring ASCII letter case.
pub open spec fn spells(s: Seq<char>, w: Seq<char>) -> bool {
    s.len() == w.len() && forall|i: int| 0 <= i < s.len() ==> same_letter(#[trigger] s[i], w[i])
}

/// An optional sign, then `inf`, `infinity` or `nan` in any letter case.
pub open spec fn is_special(t: Seq<char>) -> bool {
    let r = t.skip(sign_len(t, 0));
    spells(r, "inf"@) || spells(r, "infinity"@) || spells(r, "nan"@)
}

/// A positional number: an optional sign, digits with at most one point and at
/// least one digit, then optionally `e` or `E`, an optional sign and digits.
pub open spec fn is_positional(t: Seq<char>) -> bool {
    let k0 = sign_len(t, 0);
    let a = digit_run(t, k0);
    let k1 = k0 + a;
    let dot = k1 < t.len() && t[k1] == '.';
    let b = if dot {
        digit_run(t, k1 + 1)
    } else {
        0
    };
    let k2 = if dot {
        k1 + 1 + b
    } else {
        k1
    };
    a + b > 0 && (k2 == t.len() || (k2 < t.len() && (t[k2] == 'e' || t[k2] == 'E')
        && digit_run(t, k2 + 1 + sign_len(t, k2 + 1)) > 0 && k2 + 1 + sign_len(t, k2 + 1)
        + digit_run(t, k2 + 1 + sign_len(t, k2 + 1)) == t.len()))
}

proof fn lemma_digit_run_bounds(s: Seq<char>, i: int)
    requires
        0 <= i <= s.len(),
    ensures
        0 <= digit_run(s, i) <= s.len() - i,
    decreases s.len() - i,
{
    if i < s.len() && is_digit(s[i]) {
        lemma_digit_run_bounds(s, i + 1);
    }
}

fn count_digits(t: &Vec<char>, from: usize) -> (r: usize)
    requires
        from <= t@.len(),
    ensures
        r == digit_run(t@, from as int),
        r <= t@.len() - from,
{
    let mut i = from;
    proof {
        lemma_digit_run_bounds(t@, from as int);
    }
    while i < t.len() && '0' <= t[i] && t[i] <= '9'
        invariant
            from <= i <= t@.len(),
            digit_run(t@, from as int) == (i - from) + digit_run(t@, i as int),
        decreases t@.len() - i,
    {
        i += 1;
    }
    (i - from) as usize
}

fn sign_at(t: &Vec<char>, i: usize) -> (r: usize)
    ensures
        r == sign_len(t@, i as int),
        r <= 1,
        r == 1 ==> i < t@.len(),
{
    if i < t.len() && (t[i] == '+' || t[i] == '-') {
        1
    } else {
        0
    }
}

/// Whether `t` is a number.
pub fn decimal_text(t: &Vec<char>) -> (r: bool)
    ensures
        r == is_decimal(t@),
{
    let k0 = sign_at(t, 0);
    positional_text(t) || spells_from(t, k0, "inf") || spells_from(t, k0, "infinity")
        || spells_from(t, k0, "nan")
}

/// Whether the characters of `t` from `from` on spell the lowercase word `w`.
fn spells_from(t: &Vec<char>, from: usize, w: &str) -> (r: bool)
    requires
        from <= t@.len(),
    ensures
        r == spells(t@.skip(from as int), w@),
{
    let n = w.unicode_len();
    let len = t.len();
    if len - from != n {
        return false;
    }
    let mut i: usize = 0;
    while i < n
        invariant
            n == w@.len(),
            len == t@.len(),
            from <= t@.len(),
            t@.len() - from == n,
            i <= n,
            forall|j: int| 0 <= j < i ==> same_letter(#[trigger] t@.skip(from as int)[j], w@[j]),
        decreases n - i,
    {
        let c = t[from + i];
        let l = w.get_char(i);
        if !(c == l || (l as u32 >= 32 && c as u32 == l as u32 - 32)) {
            assert(!same_letter(t@.skip(from as int)[i as int], w@[i as int]));
            return false;
        }
        i += 1;
    }
    true
}

/// Whether `t` is a positional number.
fn positional_text(t: &Vec<char>) -> (r: bool)
    ensures
        r == is_positional(t@),
{
    let len = t.len();
    let k0 = sign_at(t, 0);
    let a = count_digits(t, k0);
    proof {
        lemma_digit_run_bounds(t@, k0 as int);
    }
    let k1 = k0 + a;
    let dot = k1 < t.len() && t[k1] == '.';
    let b = if dot {
        count_digits(t, k1 + 1)
    } else {
        0
    };
    proof {
        if dot {
            lemma_digit_run_bounds(t@, k1 + 1);
        }
    }
    let k2 = if dot {
        k1 + 1 + b
    } else {
        k1
    };
    if a + b == 0 {
        return false;
    }
    if k2 == t.len() {
        return true;
    }
    if !(t[k2] == 'e' || t[k2] == 'E') {
        return false;
    }
    let k3 = k2 + 1 + sign_at(t, k2 + 1);
    let c = count_digits(t, k3);
    c > 0 && k3 + c == t.len()
}

/// The number that the digits of `s` write.
pub open spec fn digits_value(s: Seq<char>) -> nat
    decreases s.len(),
{
    if s.len() == 0 {
        0
    } else {
        digits_value(s.drop_last()) * 10 + (s.last() as nat - '0' as nat) as nat
    }
}

/// A color channel: an optional `+`, then digits that write a number up to 255.
pub open spec fn channel_of(t: Seq<char>) -> Option<u8> {
    let k = if t.len() > 0 && t[0] == '+' {
        1int
    } else {
        0int
    };
    if digit_run(t, k) > 0 && k + digit_run(t, k) == t.len() && digits_value(t.subrange(k, t.len()as int)) <= 255 {
        Some(digits_value(t.subrange(k, t.len() as int)) as u8)
    } else {
        None
    }
}

proof fn lemma_digits_value_grows(s: Seq<char>, i: int)
    requires
        0 <= i <= s.len(),
        forall|j: int| 0 <= j < s.len() ==> is_digit(#[trigger] s[j]),
    ensures
        digits_value(s.take(i)) <= digits_value(s),
    decreases s.len() - i,
{
    if i < s.len() {
        lemma_digits_value_grows(s, i + 1);
        assert(s.take(i + 1).drop_last() =~= s.take(i));
    } else {
        assert(s.take(i) =~= s);
    }
}

proof fn lemma_run_all_digits(s: Seq<char>, i: int, j: int)
    requires
        0 <= i <= j,
        j < i + digit_run(s, i),
    ensures
        is_digit(s[j]),
    decreases j - i,
{
    if j > i {
        lemma_run_all_digits(s, i + 1, j);
    }
}

/// Reads a color channel.
pub fn parse_channel(t: &Vec<char>) -> (r: Option<u8>)
    ensures
        r == channel_of(t@),
{
    let k: usize = if t.len() > 0 && t[0] == '+' {
        1
    } else {
        0
    };
    let n = count_digits(t, k);
    if n == 0 || k + n != t.len() {
        return None;
    }
    let ghost d = t@.subrange(k as int, t@.len() as int);
    assert forall|j: int| 0 <= j < d.len() implies is_digit(#[trigger] d[j]) by {
        lemma_run_all_digits(t@, k as int, k + j);
    }
    let mut v: u32 = 0;
    let mut i: usize = k;
    while i < t.len()
        invariant
            k <= i <= t@.len(),
            k == (if t@.len() > 0 && t@[0] == '+' { 1int } else { 0int }),
            digit_run(t@, k as int) > 0,
            k + digit_run(t@, k as int) == t@.len(),
            d == t@.subrange(k as int, t@.len() as int),
            forall|j: int| 0 <= j < d.len() ==> is_digit(#[trigger] d[j]),
            v == digits_value(d.take(i - k)),
            v <= 255,
        decreases t@.len() - i,
    {
        assert(d.take(i - k + 1).drop_last() =~= d.take(i - k));
        assert(is_digit(d[i - k]));
        assert(d[i - k] == t@[i as int]);
        v = v * 10 + (t[i] as u32 - '0' as u32);
        i += 1;
        assert(v == digits_value(d.take(i - k)));
        if v > 255 {
            proof {
                lemma_digits_value_grows(d, i - k);
                assert(digits_value(d) > 255);
                assert(channel_of(t@) is None);
            }
            return None;
        }
    }
    assert(d.take(i - k) =~= d);
    Some(v as u8)
}

} // verus!
