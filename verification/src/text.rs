use vstd::prelude::*;

verus! {

/// Appends a character to a string.
/// Trusted: `String::push` of std; the contract claims that the string's characters after
/// the call are those before it followed by `c`.
#[verifier::external_body]
pub fn push_char(s: &mut String, c: char)
    ensures
        final(s)@ == old(s)@.push(c),
{
    s.push(c);
}

/// Appends the characters of `t` to `s`.
pub fn push_str(s: &mut String, t: &str)
    ensures
        final(s)@ == old(s)@ + t@,
{
    let n = t.unicode_len();
    let mut i: usize = 0;
    while i < n
        invariant
            n == t@.len(),
            i <= n,
            s@ == old(s)@ + t@.subrange(0, i as int),
        decreases n - i,
    {
        let c = t.get_char(i);
        push_char(s, c);
        i += 1;
        assert(t@.subrange(0, i as int) =~= t@.subrange(0, (i - 1) as int).push(c));
    }
    assert(t@.subrange(0, n as int) =~= t@);
}

/// The characters of a string, one per element.
pub fn chars_of(t: &str) -> (r: Vec<char>)
    ensures
        r@ == t@,
{
    let n = t.unicode_len();
    let mut r: Vec<char> = Vec::new();
    let mut i: usize = 0;
    while i < n
        invariant
            n == t@.len(),
            i <= n,
            r@ == t@.subrange(0, i as int),
        decreases n - i,
    {
        r.push(t.get_char(i));
        i += 1;
    }
    assert(r@ =~= t@);
    r
}

/// Whether a character separates the fields of a line.
pub open spec fn is_blank(c: char) -> bool {
    c == ' ' || c == '\t' || c == '\n' || c == '\r'
}

/// The fields completed so far and the field being read, after the characters of `s`.
pub open spec fn split_state(s: Seq<char>) -> (Seq<Seq<char>>, Seq<char>)
    decreases s.len(),
{
    if s.len() == 0 {
        (seq![], seq![])
    } else {
        let (fs, cur) = split_state(s.drop_last());
        let c = s.last();
        if is_blank(c) {
            if cur.len() > 0 { (fs.push(cur), seq![]) } else { (fs, cur) }
        } else {
            (fs, cur.push(c))
        }
    }
}

/// The fields of a line: its maximal runs of characters that are not blank.
pub open spec fn fields_of(s: Seq<char>) -> Seq<Seq<char>> {
    let (fs, cur) = split_state(s);
    if cur.len() > 0 { fs.push(cur) } else { fs }
}

/// The field at position `n` of a line, when there is one.
pub fn field_at(cs: &Vec<char>, n: usize) -> (r: Option<Vec<char>>)
    ensures
        r is Some <==> n < fields_of(cs@).len(),
        r matches Some(w) ==> w@ == fields_of(cs@)[n as int],
{
    let mut count: usize = 0;
    let mut cur: Vec<char> = Vec::new();
    let mut found: Option<Vec<char>> = None;
    let ghost mut fs: Seq<Seq<char>> = seq![];
    let mut i: usize = 0;
    while i < cs.len()
        invariant
            i <= cs@.len(),
            split_state(cs@.take(i as int)) == (fs, cur@),
            count == fs.len(),
            count <= i,
            found matches Some(w) ==> n < count && w@ == fs[n as int],
            found is None ==> count <= n,
        decreases cs@.len() - i,
    {
        let c = cs[i];
        assert(cs@.take(i as int + 1).drop_last() =~= cs@.take(i as int));
        if c == ' ' || c == '\t' || c == '\n' || c == '\r' {
            if cur.len() > 0 {
                proof {
                    fs = fs.push(cur@);
                }
                if count == n {
                    found = Some(cur);
                } else {
                }
                count = count + 1;
                cur = Vec::new();
            }
        } else {
            cur.push(c);
        }
        i = i + 1;
    }
    assert(cs@.take(cs@.len() as int) =~= cs@);
    if found.is_some() {
        found
    } else if cur.len() > 0 && count == n {
        Some(cur)
    } else {
        None
    }
}

/// Whether every character is a decimal digit.
pub open spec fn all_digits(s: Seq<char>) -> bool {
    forall|i: int| 0 <= i < s.len() ==> '0' <= #[trigger] s[i] <= '9'
}

/// The number that decimal digits write.
pub open spec fn decimal_value(s: Seq<char>) -> int
    decreases s.len(),
{
    if s.len() == 0 {
        0
    } else {
        decimal_value(s.drop_last()) * 10 + (s.last() as int - '0' as int)
    }
}

/// The number a field writes, when it is made of decimal digits and fits in 32 bits.
pub open spec fn number_spec(s: Seq<char>) -> Option<u32> {
    if s.len() > 0 && all_digits(s) && decimal_value(s) <= u32::MAX {
        Some(decimal_value(s) as u32)
    } else {
        None
    }
}

proof fn lemma_decimal_nonneg(s: Seq<char>)
    requires
        all_digits(s),
    ensures
        decimal_value(s) >= 0,
    decreases s.len(),
{
    if s.len() > 0 {
        assert(all_digits(s.drop_last())) by {
            assert forall|i: int| 0 <= i < s.drop_last().len() implies '0' <= #[trigger] s.drop_last()[i] <= '9' by {
                assert(s.drop_last()[i] == s[i]);
            }
        }
        lemma_decimal_nonneg(s.drop_last());
        assert('0' <= s[s.len() - 1] <= '9');
    }
}

/// The number a field writes (see `number_spec`).
pub fn parse_number(w: &Vec<char>) -> (r: Option<u32>)
    ensures
        r == number_spec(w@),
{
    let cap: u64 = 0x1_0000_0000;
    let mut acc: u64 = 0;
    let mut digits = true;
    let mut i: usize = 0;
    while i < w.len()
        invariant
            i <= w@.len(),
            digits == all_digits(w@.take(i as int)),
            digits ==> acc as int == if decimal_value(w@.take(i as int)) < cap { decimal_value(w@.take(i as int)) } else { cap as int },
            digits ==> decimal_value(w@.take(i as int)) >= 0,
            acc <= cap,
            cap == 0x1_0000_0000u64,
        decreases w@.len() - i,
    {
        let c = w[i];
        let ghost prev = w@.take(i as int);
        let ghost next = w@.take(i as int + 1);
        assert(next.drop_last() =~= prev);
        assert(next.last() == c);
        if '0' <= c && c <= '9' {
            let d = (c as u32 - '0' as u32) as u64;
            proof {
                if digits {
                    assert forall|k: int| 0 <= k < next.len() implies '0' <= #[trigger] next[k] <= '9' by {
                        if k < prev.len() {
                            assert(next[k] == prev[k]);
                        }
                    }
                    let dv = decimal_value(prev);
                    assert(decimal_value(next) == dv * 10 + d);
                    if dv >= cap {
                        assert(dv * 10 + d >= cap) by (nonlinear_arith)
                            requires
                                dv >= cap,
                                d >= 0,
                                cap > 0,
                        ;
                    }
                }
            }
            if acc >= cap {
                acc = cap;
            } else {
                let v = acc * 10 + d;
                acc = if v >= cap { cap } else { v };
            }
        } else {
            digits = false;
            proof {
                assert(!('0' <= next[i as int] <= '9'));
            }
        }
        proof {
            if !digits {
                assert(!all_digits(next) || !all_digits(prev));
                if !all_digits(prev) {
                    let k = choose|k: int| 0 <= k < prev.len() && !('0' <= #[trigger] prev[k] <= '9');
                    assert(next[k] == prev[k]);
                }
            }
        }
        i = i + 1;
    }
    assert(w@.take(w@.len() as int) =~= w@);
    if digits && w.len() > 0 && acc < cap {
        Some(acc as u32)
    } else {
        None
    }
}


/// Whether two characters are equal once ASCII capitals are taken as small letters.
pub open spec fn same_letter_ignoring_case(a: char, b: char) -> bool {
    ||| a == b
    ||| 'A' <= a <= 'Z' && b as int == a as int + 32
    ||| 'A' <= b <= 'Z' && a as int == b as int + 32
}

/// Whether two texts are equal once ASCII capitals are taken as small letters.
pub open spec fn eq_ignoring_ascii_case(a: Seq<char>, b: Seq<char>) -> bool {
    a.len() == b.len() && forall|i: int| 0 <= i < a.len() ==> #[trigger] same_letter_ignoring_case(a[i], b[i])
}

/// Whether two texts are equal once ASCII capitals are taken as small letters.
pub fn eq_ignore_ascii_case(a: &str, b: &str) -> (r: bool)
    ensures
        r == eq_ignoring_ascii_case(a@, b@),
{
    let n = a.unicode_len();
    if n != b.unicode_len() {
        return false;
    }
    let mut i: usize = 0;
    while i < n
        invariant
            n == a@.len(),
            n == b@.len(),
            i <= n,
            forall|j: int| 0 <= j < i ==> #[trigger] same_letter_ignoring_case(a@[j], b@[j]),
        decreases n - i,
    {
        let x = a.get_char(i);
        let y = b.get_char(i);
        let xu = x as u32;
        let yu = y as u32;
        let same = xu == yu || ('A' <= x && x <= 'Z' && yu == xu + 32) || ('A' <= y && y <= 'Z' && xu == yu + 32);
        if !same {
            assert(!same_letter_ignoring_case(a@[i as int], b@[i as int]));
            return false;
        }
        i += 1;
    }
    true
}

/// Whether two texts are equal.
pub fn same_text(a: &str, b: &str) -> (r: bool)
    ensures
        r == (a@ == b@),
{
    let n = a.unicode_len();
    if n != b.unicode_len() {
        return false;
    }
    let mut i: usize = 0;
    while i < n
        invariant
            n == a@.len(),
            n == b@.len(),
            i <= n,
            a@.subrange(0, i as int) == b@.subrange(0, i as int),
        decreases n - i,
    {
        if a.get_char(i) != b.get_char(i) {
            return false;
        }
        assert(a@.subrange(0, i + 1) =~= a@.subrange(0, i as int).push(a@[i as int]));
        assert(b@.subrange(0, i + 1) =~= b@.subrange(0, i as int).push(b@[i as int]));
        i += 1;
    }
    assert(a@ =~= a@.subrange(0, n as int));
    assert(b@ =~= b@.subrange(0, n as int));
    true
}

} // verus!
