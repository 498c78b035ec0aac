use vstd::prelude::*;

verus! {

/// Unicode `White_Space`: the characters that `char::is_whitespace` accepts.
pub open spec fn is_white_space(c: char) -> bool {
    let u = c as u32;
    (0x9 <= u && u <= 0xD) || u == 0x20 || u == 0x85 || u == 0xA0 || u == 0x1680 || (0x2000 <= u
        && u <= 0x200A) || u == 0x2028 || u == 0x2029 || u == 0x202F || u == 0x205F || u == 0x3000
}

/// Unicode general category `Cc`: the characters that `char::is_control` accepts.
pub open spec fn is_control(c: char) -> bool {
    let u = c as u32;
    u <= 0x1F || (0x7F <= u && u <= 0x9F)
}

pub fn is_white_space_char(c: char) -> (r: bool)
    ensures
        r == is_white_space(c),
{
    let u = c as u32;
    (0x9 <= u && u <= 0xD) || u == 0x20 || u == 0x85 || u == 0xA0 || u == 0x1680 || (0x2000 <= u
        && u <= 0x200A) || u == 0x2028 || u == 0x2029 || u == 0x202F || u == 0x205F || u == 0x3000
}

pub fn is_control_char(c: char) -> (r: bool)
    ensures
        r == is_control(c),
{
    let u = c as u32;
    u <= 0x1F || (0x7F <= u && u <= 0x9F)
}

/// Number of white-space characters at the start of `s`.
pub open spec fn leading_ws(s: Seq<char>) -> nat
    decreases s.len(),
{
    if s.len() > 0 && is_white_space(s[0]) {
        1 + leading_ws(s.drop_first())
    } else {
        0
    }
}

/// Number of white-space characters at the end of `s`.
pub open spec fn trailing_ws(s: Seq<char>) -> nat
    decreases s.len(),
{
    if s.len() > 0 && is_white_space(s.last()) {
        1 + trailing_ws(s.drop_last())
    } else {
        0
    }
}

/// `s` without leading and trailing white space.
pub open spec fn trimmed(s: Seq<char>) -> Seq<char> {
    let t = s.skip(leading_ws(s) as int);
    t.take(t.len() - trailing_ws(t))
}

proof fn lemma_trailing_ws_bound(s: Seq<char>)
    ensures
        trailing_ws(s) <= s.len(),
    decreases s.len(),
{
    if s.len() > 0 && is_white_space(s.last()) {
        lemma_trailing_ws_bound(s.drop_last());
    }
}

/// Removes leading and trailing white space, as `str::trim` does.
pub fn trim(s: &str) -> (r: &str)
    ensures
        r@ == trimmed(s@),
{
    let n = s.unicode_len();
    let mut i: usize = 0;
    assert(s@.skip(0) =~= s@);
    while i < n && is_white_space_char(s.get_char(i))
        invariant
            n == s@.len(),
            i <= n,
            leading_ws(s@) == i + leading_ws(s@.skip(i as int)),
        decreases n - i,
    {
        assert(s@.skip(i as int).drop_first() =~= s@.skip(i + 1));
        i = i + 1;
    }
    assert(leading_ws(s@.skip(i as int)) == 0);
    let ghost t = s@.skip(i as int);
    let mut j: usize = n;
    assert(t.take(n - i) =~= t);
    while j > i && is_white_space_char(s.get_char(j - 1))
        invariant
            n == s@.len(),
            i <= j <= n,
            t == s@.skip(i as int),
            trailing_ws(t) == (n - j) + trailing_ws(t.take(j - i)),
        decreases j,
    {
        assert(t.take(j - i).drop_last() =~= t.take(j - 1 - i));
        j = j - 1;
    }
    proof {
        lemma_trailing_ws_bound(t.take(j - i));
        assert(t.take(t.len() - trailing_ws(t)) =~= s@.subrange(i as int, j as int));
    }
    s.substring_char(i, j)
}

/// Index of the first `c` in `s` at or after `i`, or -1.
pub open spec fn index_from(s: Seq<char>, c: char, i: int) -> int
    decreases s.len() - i,
{
    if i < 0 || i >= s.len() {
        -1
    } else if s[i] == c {
        i
    } else {
        index_from(s, c, i + 1)
    }
}

/// Index of the first `c` in `s`, or -1.
pub open spec fn first_index(s: Seq<char>, c: char) -> int {
    index_from(s, c, 0)
}

pub fn find_char(s: &str, c: char) -> (r: Option<usize>)
    ensures
        match r {
            Some(k) => first_index(s@, c) == k as int && k < s@.len() && s@[k as int] == c,
            None => first_index(s@, c) == -1,
        },
        first_index(s@, c) == -1 <==> forall|k: int| 0 <= k < s@.len() ==> s@[k] != c,
{
    let n = s.unicode_len();
    let mut i: usize = 0;
    while i < n
        invariant
            n == s@.len(),
            i <= n,
            first_index(s@, c) == index_from(s@, c, i as int),
            forall|k: int| 0 <= k < i ==> s@[k] != c,
        decreases n - i,
    {
        if s.get_char(i) == c {
            return Some(i);
        }
        i = i + 1;
    }
    None
}

/// Whether every character of `s` is an ASCII digit.
pub open spec fn all_digits(s: Seq<char>) -> bool {
    forall|k: int| 0 <= k < s.len() ==> 48 <= (s[k] as u32) && (s[k] as u32) <= 57
}

/// The number that the ASCII digits of `s` denote.
pub open spec fn digits_value(s: Seq<char>) -> int
    decreases s.len(),
{
    if s.len() == 0 {
        0
    } else {
        digits_value(s.drop_last()) * 10 + (s.last() as u32 - 48)
    }
}

/// What `str::parse::<u64>` yields: an optional `+`, then one or more ASCII digits whose
/// value fits in a `u64`.
pub open spec fn parse_u64_spec(s: Seq<char>) -> Option<u64> {
    let d = if s.len() > 0 && s[0] == '+' {
        s.drop_first()
    } else {
        s
    };
    if d.len() > 0 && all_digits(d) && digits_value(d) <= u64::MAX {
        Some(digits_value(d) as u64)
    } else {
        None
    }
}

proof fn lemma_digits_value_prefix(s: Seq<char>, j: int, k: int)
    requires
        all_digits(s),
        0 <= j <= k <= s.len(),
    ensures
        0 <= digits_value(s.take(j)) <= digits_value(s.take(k)),
    decreases k - j,
{
    if j < k {
        lemma_digits_value_prefix(s, j, k - 1);
        assert(s.take(k).drop_last() =~= s.take(k - 1));
    } else {
        lemma_digits_value_nonneg(s.take(j));
    }
}

proof fn lemma_digits_value_nonneg(s: Seq<char>)
    requires
        all_digits(s),
    ensures
        digits_value(s) >= 0,
    decreases s.len(),
{
    if s.len() > 0 {
        lemma_digits_value_nonneg(s.drop_last());
    }
}

/// Parses a decimal `u64` as `str::parse::<u64>` does.
pub fn parse_u64(s: &str) -> (r: Option<u64>)
    ensures
        r == parse_u64_spec(s@),
{
    let n = s.unicode_len();
    let mut i: usize = 0;
    if n > 0 && s.get_char(0) == '+' {
        i = 1;
    }
    let ghost d = if s@.len() > 0 && s@[0] == '+' {
        s@.drop_first()
    } else {
        s@
    };
    assert(d =~= s@.skip(i as int));
    if i == n {
        return None;
    }
    let start = i;
    let mut value: u64 = 0;
    while i < n
        invariant
            n == s@.len(),
            start <= i <= n,
            d =~= s@.skip(start as int),
            d == (if s@.len() > 0 && s@[0] == '+' {
                s@.drop_first()
            } else {
                s@
            }),
            all_digits(d.take(i - start)),
            value as int == digits_value(d.take(i - start)),
        decreases n - i,
    {
        let c = s.get_char(i);
        let u = c as u32;
        if u < 48 || u > 57 {
            assert(!all_digits(d)) by {
                assert(d[i - start] == c);
            }
            return None;
        }
        let digit = (u - 48) as u64;
        assert(d.take(i + 1 - start).drop_last() =~= d.take(i - start));
        if value > (u64::MAX - digit) / 10 {
            proof {
                assert(digits_value(d.take(i + 1 - start)) > u64::MAX) by (nonlinear_arith)
                    requires
                        digits_value(d.take(i + 1 - start)) == value * 10 + digit,
                        value > (u64::MAX - digit) / 10,
                        digit <= 9,
                ;
                if all_digits(d) {
                    lemma_digits_value_prefix(d, i + 1 - start, d.len() as int);
                    assert(d.take(d.len() as int) =~= d);
                }
            }
            return None;
        }
        assert(value * 10 + digit <= u64::MAX) by (nonlinear_arith)
            requires
                value <= (u64::MAX - digit) / 10,
                digit <= 9,
        ;
        value = value * 10 + digit;
        i = i + 1;
    }
    assert(d.take(n - start) =~= d);
    Some(value)
}

/// The decimal digit character for `d`.
pub open spec fn digit_char_spec(d: nat) -> char {
    ((48 + d) as u8) as char
}

/// The decimal representation of `n`, as `u64::to_string` writes it.
pub open spec fn decimal(n: nat) -> Seq<char>
    decreases n,
{
    if n < 10 {
        seq![digit_char_spec(n)]
    } else {
        decimal(n / 10).push(digit_char_spec(n % 10))
    }
}

/// Relies on `String::push`: appends one character.
#[verifier::external_body]
pub(crate) fn push_char(s: &mut String, c: char)
    ensures
        final(s)@ == old(s)@.push(c),
{
    s.push(c)
}

/// Appends the decimal representation of `n` to `out`.
pub fn push_decimal(out: &mut String, n: u64)
    ensures
        final(out)@ == old(out)@ + decimal(n as nat),
    decreases n,
{
    if n >= 10 {
        push_decimal(out, n / 10);
    }
    let d = (n % 10) as u8;
    push_char(out, (48 + d) as char);
    proof {
        if n < 10 {
            assert(decimal(n as nat) =~= seq![digit_char_spec(n as nat)]);
        }
    }
}

} // verus!

verus! {

/// Whether `s` begins with `p`.
pub fn starts_with(s: &str, p: &str) -> (r: bool)
    ensures
        r == (p@.len() <= s@.len() && s@.take(p@.len() as int) == p@),
{
    let n = s.unicode_len();
    let m = p.unicode_len();
    if m > n {
        return false;
    }
    let mut i: usize = 0;
    while i < m
        invariant
            n == s@.len(),
            m == p@.len(),
            m <= n,
            i <= m,
            forall|k: int| 0 <= k < i ==> s@[k] == p@[k],
        decreases m - i,
    {
        if s.get_char(i) != p.get_char(i) {
            assert(s@.take(m as int)[i as int] != p@[i as int]);
            return false;
        }
        i = i + 1;
    }
    assert(s@.take(m as int) =~= p@);
    true
}

} // verus!

verus! {

/// Whether two strings hold the same characters.
pub fn str_eq(a: &str, b: &str) -> (r: bool)
    ensures
        r == (a@ == b@),
{
    if a.unicode_len() != b.unicode_len() {
        return false;
    }
    assert(a@.take(b@.len() as int) =~= a@);
    starts_with(a, b)
}

/// `s` cut at every `c`, as `str::split` does: `k` separators give `k + 1` pieces.
pub open spec fn split_on(s: Seq<char>, c: char) -> Seq<Seq<char>>
    decreases s.len(),
{
    let k = first_index(s, c);
    if k < 0 || k >= s.len() {
        seq![s]
    } else {
        seq![s.take(k)] + split_on(s.skip(k + 1), c)
    }
}

proof fn lemma_index_from_range(s: Seq<char>, c: char, i: int)
    ensures
        index_from(s, c, i) == -1 || (i <= index_from(s, c, i) < s.len() && s[index_from(
            s,
            c,
            i,
        )] == c),
    decreases s.len() - i,
{
    if i >= 0 && i < s.len() && s[i] != c {
        lemma_index_from_range(s, c, i + 1);
    }
}

/// Cuts `s` at every `c`.
pub fn split_str(s: &str, c: char) -> (r: Vec<String>)
    ensures
        r@.len() == split_on(s@, c).len(),
        forall|i: int| 0 <= i < r@.len() ==> #[trigger] r@[i]@ == split_on(s@, c)[i],
    decreases s@.len(),
{
    let mut out: Vec<String> = Vec::new();
    let mut rest: &str = s;
    let ghost done: Seq<Seq<char>> = seq![];
    loop
        invariant
            split_on(s@, c) == done + split_on(rest@, c),
            out@.len() == done.len(),
            forall|i: int| 0 <= i < out@.len() ==> #[trigger] out@[i]@ == done[i],
        decreases rest@.len(),
    {
        proof {
            lemma_index_from_range(rest@, c, 0);
        }
        match find_char(rest, c) {
            None => {
                out.push(String::from_str(rest));
                proof {
                    assert(split_on(rest@, c) == seq![rest@]);
                    done = done.push(rest@);
                    assert(split_on(s@, c) =~= done);
                }
                return out;
            },
            Some(k) => {
                let n = rest.unicode_len();
                let piece = rest.substring_char(0, k);
                let next = rest.substring_char(k + 1, n);
                proof {
                    assert(piece@ =~= rest@.take(k as int));
                    assert(next@ =~= rest@.skip(k + 1));
                    assert(split_on(rest@, c) == seq![piece@] + split_on(next@, c));
                    done = done.push(piece@);
                    assert(split_on(s@, c) =~= done + split_on(next@, c));
                }
                out.push(String::from_str(piece));
                rest = next;
            },
        }
    }
}

} // verus!

verus! {

pub proof fn lemma_index_from_none(s: Seq<char>, c: char, i: int)
    requires
        0 <= i,
    ensures
        index_from(s, c, i) == -1 <==> forall|k: int| i <= k < s.len() ==> s[k] != c,
    decreases s.len() - i,
{
    if i < s.len() {
        lemma_index_from_none(s, c, i + 1);
    }
}

/// A character occurs in `s` exactly where `first_index` finds one.
pub proof fn lemma_first_index_none(s: Seq<char>, c: char)
    ensures
        first_index(s, c) == -1 <==> forall|k: int| 0 <= k < s.len() ==> s[k] != c,
{
    lemma_index_from_none(s, c, 0);
}

/// `parts` joined with `/` between neighbours.
pub open spec fn join_slash(parts: Seq<Seq<char>>) -> Seq<char>
    decreases parts.len(),
{
    if parts.len() == 0 {
        seq![]
    } else if parts.len() == 1 {
        parts[0]
    } else {
        join_slash(parts.drop_last()) + seq!['/'] + parts.last()
    }
}

/// Joins `parts` with `/` between neighbours.
pub fn join_strings(parts: &Vec<String>) -> (r: String)
    ensures
        r@ == join_slash(parts.deep_view()),
{
    let mut out = String::new();
    let mut i: usize = 0;
    while i < parts.len()
        invariant
            i <= parts@.len(),
            out@ == join_slash(parts.deep_view().take(i as int)),
        decreases parts@.len() - i,
    {
        if i > 0 {
            out.append("/");
            proof {
                reveal_strlit("/");
            }
        }
        out.append(parts[i].as_str());
        proof {
            let t = parts.deep_view().take(i + 1);
            assert(t.drop_last() =~= parts.deep_view().take(i as int));
            if i == 0 {
                assert(out@ =~= join_slash(t));
            } else {
                assert(out@ =~= join_slash(t));
            }
        }
        i = i + 1;
    }
    assert(parts.deep_view().take(parts@.len() as int) =~= parts.deep_view());
    out
}

} // verus!

verus! {

/// Lexicographic order by code point, which is the order of `str`'s `Ord`.
pub open spec fn lex_le(a: Seq<char>, b: Seq<char>) -> bool
    decreases a.len(),
{
    if a.len() == 0 {
        true
    } else if b.len() == 0 {
        false
    } else if (a[0] as u32) != (b[0] as u32) {
        (a[0] as u32) < (b[0] as u32)
    } else {
        lex_le(a.drop_first(), b.drop_first())
    }
}

pub proof fn lemma_lex_total(a: Seq<char>, b: Seq<char>)
    ensures
        lex_le(a, b) || lex_le(b, a),
    decreases a.len(),
{
    if a.len() > 0 && b.len() > 0 && (a[0] as u32) == (b[0] as u32) {
        lemma_lex_total(a.drop_first(), b.drop_first());
    }
}

pub proof fn lemma_lex_transitive(a: Seq<char>, b: Seq<char>, c: Seq<char>)
    requires
        lex_le(a, b),
        lex_le(b, c),
    ensures
        lex_le(a, c),
    decreases a.len(),
{
    if a.len() > 0 && b.len() > 0 && c.len() > 0 && (a[0] as u32) == (b[0] as u32) && (b[0]
        as u32) == (c[0] as u32) {
        lemma_lex_transitive(a.drop_first(), b.drop_first(), c.drop_first());
    }
}

pub fn lex_le_str(a: &str, b: &str) -> (r: bool)
    ensures
        r == lex_le(a@, b@),
{
    let n = a.unicode_len();
    let m = b.unicode_len();
    let mut i: usize = 0;
    assert(a@.skip(0) =~= a@);
    assert(b@.skip(0) =~= b@);
    while i < n && i < m && (a.get_char(i) as u32) == (b.get_char(i) as u32)
        invariant
            n == a@.len(),
            m == b@.len(),
            i <= n,
            i <= m,
            lex_le(a@, b@) == lex_le(a@.skip(i as int), b@.skip(i as int)),
        decreases n - i,
    {
        assert(a@.skip(i as int).drop_first() =~= a@.skip(i + 1));
        assert(b@.skip(i as int).drop_first() =~= b@.skip(i + 1));
        i = i + 1;
    }
    if i == n {
        true
    } else if i == m {
        false
    } else {
        (a.get_char(i) as u32) < (b.get_char(i) as u32)
    }
}

} // verus!
