//! Text utilities: Unicode white-space trimming and number formatting.

use vstd::prelude::*;
use vstd::string::*;

verus! {

/// The Unicode `White_Space` property (PropList.txt), which is what
/// `char::is_whitespace` tests.
pub open spec fn is_white_space(c: char) -> bool {
    let u = c as u32;
    ||| (0x09 <= u && u <= 0x0d)
    ||| u == 0x20
    ||| u == 0x85
    ||| u == 0xa0
    ||| u == 0x1680
    ||| (0x2000 <= u && u <= 0x200a)
    ||| u == 0x2028
    ||| u == 0x2029
    ||| u == 0x202f
    ||| u == 0x205f
    ||| u == 0x3000
}

/// Whether `c` carries the Unicode `White_Space` property, as
/// `char::is_whitespace` tests.
pub fn char_is_whitespace(c: char) -> (r: bool)
    ensures
        r == is_white_space(c),
{
    let u = c as u32;
    (0x09 <= u && u <= 0x0d) || u == 0x20 || u == 0x85 || u == 0xa0 || u == 0x1680 || (0x2000 <= u
        && u <= 0x200a) || u == 0x2028 || u == 0x2029 || u == 0x202f || u == 0x205f || u == 0x3000
}

/// The sequence with its leading white space removed.
pub open spec fn trim_start_spec(s: Seq<char>) -> Seq<char>
    decreases s.len(),
{
    if s.len() > 0 && is_white_space(s[0]) {
        trim_start_spec(s.drop_first())
    } else {
        s
    }
}

/// The sequence with its trailing white space removed.
pub open spec fn trim_end_spec(s: Seq<char>) -> Seq<char>
    decreases s.len(),
{
    if s.len() > 0 && is_white_space(s.last()) {
        trim_end_spec(s.drop_last())
    } else {
        s
    }
}

/// The sequence with leading and trailing white space removed, as `str::trim` does.
pub open spec fn trim_spec(s: Seq<char>) -> Seq<char> {
    trim_end_spec(trim_start_spec(s))
}

proof fn lemma_trim_start_skip(s: Seq<char>, i: int)
    requires
        0 <= i <= s.len(),
        forall|k: int| 0 <= k < i ==> is_white_space(#[trigger] s[k]),
    ensures
        trim_start_spec(s) == trim_start_spec(s.subrange(i, s.len() as int)),
    decreases i,
{
    if i > 0 {
        assert(s.drop_first() =~= s.subrange(1, s.len() as int));
        let t = s.drop_first();
        assert forall|k: int| 0 <= k < i - 1 implies is_white_space(#[trigger] t[k]) by {
            assert(t[k] == s[k + 1]);
        }
        lemma_trim_start_skip(t, i - 1);
        assert(t.subrange(i - 1, t.len() as int) =~= s.subrange(i, s.len() as int));
    } else {
        assert(s.subrange(0, s.len() as int) =~= s);
    }
}

proof fn lemma_trim_end_skip(s: Seq<char>, j: int)
    requires
        0 <= j <= s.len(),
        forall|k: int| j <= k < s.len() ==> is_white_space(#[trigger] s[k]),
    ensures
        trim_end_spec(s) == trim_end_spec(s.subrange(0, j)),
    decreases s.len() - j,
{
    if j < s.len() {
        let t = s.drop_last();
        assert(t =~= s.subrange(0, s.len() - 1));
        assert forall|k: int| j <= k < t.len() implies is_white_space(#[trigger] t[k]) by {
            assert(t[k] == s[k]);
        }
        lemma_trim_end_skip(t, j);
        assert(t.subrange(0, j) =~= s.subrange(0, j));
    } else {
        assert(s.subrange(0, j) =~= s);
    }
}

proof fn lemma_trim_start_props(s: Seq<char>)
    ensures
        trim_start_spec(s).len() <= s.len(),
        trim_start_spec(s) == s.subrange(s.len() - trim_start_spec(s).len(), s.len() as int),
        forall|k: int|
            0 <= k < s.len() - trim_start_spec(s).len() ==> is_white_space(#[trigger] s[k]),
        trim_start_spec(s).len() > 0 ==> !is_white_space(trim_start_spec(s)[0]),
    decreases s.len(),
{
    if s.len() > 0 && is_white_space(s[0]) {
        let t = s.drop_first();
        lemma_trim_start_props(t);
        assert forall|k: int| 0 <= k < s.len() - trim_start_spec(s).len() implies is_white_space(
            #[trigger] s[k],
        ) by {
            if k > 0 {
                assert(s[k] == t[k - 1]);
            }
        }
        assert(t.subrange(t.len() - trim_start_spec(t).len(), t.len() as int) =~= s.subrange(
            s.len() - trim_start_spec(s).len(),
            s.len() as int,
        ));
    } else {
        assert(s.subrange(0, s.len() as int) =~= s);
    }
}

proof fn lemma_trim_end_props(s: Seq<char>)
    ensures
        trim_end_spec(s).len() <= s.len(),
        trim_end_spec(s) == s.subrange(0, trim_end_spec(s).len() as int),
        forall|k: int| trim_end_spec(s).len() <= k < s.len() ==> is_white_space(#[trigger] s[k]),
        trim_end_spec(s).len() > 0 ==> !is_white_space(trim_end_spec(s).last()),
    decreases s.len(),
{
    if s.len() > 0 && is_white_space(s.last()) {
        let t = s.drop_last();
        lemma_trim_end_props(t);
        assert forall|k: int| trim_end_spec(s).len() <= k < s.len() implies is_white_space(
            #[trigger] s[k],
        ) by {
            if k < s.len() - 1 {
                assert(s[k] == t[k]);
            }
        }
        assert(t.subrange(0, trim_end_spec(t).len() as int) =~= s.subrange(
            0,
            trim_end_spec(s).len() as int,
        ));
    } else {
        assert(s.subrange(0, s.len() as int) =~= s);
    }
}

/// Trimming keeps a contiguous part of the text, removes only white space,
/// and leaves no white space at either end of what it keeps.
pub proof fn lemma_trim_shape(s: Seq<char>)
    ensures
        exists|i: int|
            0 <= i <= i + trim_spec(s).len() <= s.len() && #[trigger] s.subrange(
                i,
                i + trim_spec(s).len(),
            ) == trim_spec(s) && (forall|k: int| 0 <= k < i ==> is_white_space(#[trigger] s[k]))
                && (forall|k: int|
                i + trim_spec(s).len() <= k < s.len() ==> is_white_space(#[trigger] s[k])),
        trim_spec(s).len() > 0 ==> !is_white_space(trim_spec(s)[0]) && !is_white_space(
            trim_spec(s).last(),
        ),
{
    let ts = trim_start_spec(s);
    lemma_trim_start_props(s);
    lemma_trim_end_props(ts);
    let i = s.len() - ts.len();
    let r = trim_spec(s);
    assert(s.subrange(i, i + r.len()) =~= r);
    assert forall|k: int| i + r.len() <= k < s.len() implies is_white_space(#[trigger] s[k]) by {
        assert(s[k] == ts[k - i]);
    }
    if r.len() > 0 {
        assert(r[0] == ts[0]);
    }
}

/// Trimming twice gives what trimming once gives.
pub proof fn lemma_trim_idempotent(s: Seq<char>)
    ensures
        trim_spec(trim_spec(s)) == trim_spec(s),
{
    let r = trim_spec(s);
    lemma_trim_shape(s);
    assert(trim_start_spec(r) == r);
    assert(trim_end_spec(r) == r);
}

/// Removes leading and trailing Unicode white space, as `str::trim` does.
pub fn trim(s: &str) -> (r: &str)
    ensures
        r@ == trim_spec(s@),
{
    let n = s.unicode_len();
    let mut i: usize = 0;
    while i < n && char_is_whitespace(s.get_char(i))
        invariant
            n == s@.len(),
            i <= n,
            forall|k: int| 0 <= k < i ==> is_white_space(#[trigger] s@[k]),
        decreases n - i,
    {
        i = i + 1;
    }
    proof {
        lemma_trim_start_skip(s@, i as int);
    }
    let ghost rest = s@.subrange(i as int, n as int);
    assert(trim_start_spec(rest) == rest) by {
        if rest.len() > 0 {
            assert(rest[0] == s@[i as int]);
        }
    }
    let mut j: usize = n;
    while j > i && char_is_whitespace(s.get_char(j - 1))
        invariant
            n == s@.len(),
            i <= j <= n,
            forall|k: int| j <= k < n ==> is_white_space(#[trigger] s@[k]),
        decreases j,
    {
        j = j - 1;
    }
    proof {
        let rj = (j - i) as int;
        assert forall|k: int| rj <= k < rest.len() implies is_white_space(#[trigger] rest[k]) by {
            assert(rest[k] == s@[k + i]);
        }
        lemma_trim_end_skip(rest, rj);
        let core = rest.subrange(0, rj);
        assert(trim_end_spec(core) == core) by {
            if core.len() > 0 {
                assert(core.last() == s@[j - 1]);
            }
        }
        assert(core =~= s@.subrange(i as int, j as int));
    }
    s.substring_char(i, j)
}

/// The decimal digit character for a digit value below ten.
pub open spec fn digit_char(d: nat) -> char {
    ((48 + d) as u32) as char
}

/// The decimal representation of `n`, without leading zeros.
pub open spec fn decimal_spec(n: nat) -> Seq<char>
    decreases n,
{
    if n < 10 {
        seq![digit_char(n)]
    } else {
        decimal_spec(n / 10).push(digit_char(n % 10))
    }
}

/// A decimal representation is never empty.
pub proof fn lemma_decimal_nonempty(n: nat)
    ensures
        decimal_spec(n).len() >= 1,
    decreases n,
{
    if n >= 10 {
        lemma_decimal_nonempty(n / 10);
    }
}

proof fn lemma_digit_char_injective(a: nat, b: nat)
    requires
        a < 10,
        b < 10,
        digit_char(a) == digit_char(b),
    ensures
        a == b,
{
    let x = (48 + a) as u32;
    let y = (48 + b) as u32;
    assert(x as char as u32 == x);
    assert(y as char as u32 == y);
}

/// Different numbers have different decimal representations.
pub proof fn lemma_decimal_injective(a: nat, b: nat)
    requires
        decimal_spec(a) == decimal_spec(b),
    ensures
        a == b,
    decreases a + b,
{
    if a < 10 && b < 10 {
        assert(decimal_spec(a)[0] == digit_char(a));
        assert(decimal_spec(b)[0] == digit_char(b));
        lemma_digit_char_injective(a, b);
    } else if a < 10 {
        lemma_decimal_nonempty(b / 10);
        assert(decimal_spec(b).len() >= 2);
    } else if b < 10 {
        lemma_decimal_nonempty(a / 10);
        assert(decimal_spec(a).len() >= 2);
    } else {
        let da = decimal_spec(a);
        let db = decimal_spec(b);
        assert(da.last() == digit_char(a % 10));
        assert(db.last() == digit_char(b % 10));
        lemma_digit_char_injective(a % 10, b % 10);
        assert(da.drop_last() =~= decimal_spec(a / 10));
        assert(db.drop_last() =~= decimal_spec(b / 10));
        lemma_decimal_injective(a / 10, b / 10);
    }
}

/// The lowercase hexadecimal digit character for a digit value below sixteen.
pub open spec fn hex_digit_char(d: nat) -> char {
    if d < 10 {
        ((48 + d) as u32) as char
    } else {
        ((87 + d) as u32) as char
    }
}

/// The lowercase hexadecimal representation of `n`, without leading zeros.
pub open spec fn hex_spec(n: nat) -> Seq<char>
    decreases n,
{
    if n < 16 {
        seq![hex_digit_char(n)]
    } else {
        hex_spec(n / 16).push(hex_digit_char(n % 16))
    }
}

/// Whether a character is a lowercase hexadecimal digit.
pub open spec fn is_lower_hex_digit(c: char) -> bool {
    ('0' <= c && c <= '9') || ('a' <= c && c <= 'f')
}

proof fn lemma_hex_digits(n: nat)
    ensures
        hex_spec(n).len() >= 1,
        forall|k: int| 0 <= k < hex_spec(n).len() ==> is_lower_hex_digit(#[trigger] hex_spec(n)[k]),
    decreases n,
{
    if n >= 16 {
        lemma_hex_digits(n / 16);
    }
    let d = n % 16;
    let u = if d < 10 {
        (48 + d) as u32
    } else {
        (87 + d) as u32
    };
    assert(u as char as u32 == u);
}

/// `n` in lowercase hexadecimal, padded on the left with `'0'` to at least
/// `width` characters, as the format `{:0width$x}` writes it.
pub open spec fn hex_padded_spec(n: nat, width: nat) -> Seq<char> {
    let h = hex_spec(n);
    if h.len() < width {
        Seq::new((width - h.len()) as nat, |_i: int| '0') + h
    } else {
        h
    }
}

fn digit_str(d: u64) -> (r: &'static str)
    requires
        d < 16,
    ensures
        r@ == seq![hex_digit_char(d as nat)],
{
    let r = match d {
        0 => "0",
        1 => "1",
        2 => "2",
        3 => "3",
        4 => "4",
        5 => "5",
        6 => "6",
        7 => "7",
        8 => "8",
        9 => "9",
        10 => "a",
        11 => "b",
        12 => "c",
        13 => "d",
        14 => "e",
        _ => "f",
    };
    proof {
        reveal_strlit("0");
        reveal_strlit("1");
        reveal_strlit("2");
        reveal_strlit("3");
        reveal_strlit("4");
        reveal_strlit("5");
        reveal_strlit("6");
        reveal_strlit("7");
        reveal_strlit("8");
        reveal_strlit("9");
        reveal_strlit("a");
        reveal_strlit("b");
        reveal_strlit("c");
        reveal_strlit("d");
        reveal_strlit("e");
        reveal_strlit("f");
    }
    r
}

fn push_decimal(out: &mut String, n: u64)
    ensures
        final(out)@ == old(out)@ + decimal_spec(n as nat),
    decreases n,
{
    if n >= 10 {
        push_decimal(out, n / 10);
    }
    out.append(digit_str(n % 10));
    proof {
        if n >= 10 {
            assert(old(out)@ + decimal_spec(n as nat) =~= old(out)@ + decimal_spec((n / 10) as nat)
                + seq![digit_char((n % 10) as nat)]);
        } else {
            assert(decimal_spec(n as nat) =~= seq![digit_char(n as nat)]);
        }
    }
}

/// Formats `n` in decimal, as `format!("{}", n)` does.
pub fn u64_to_decimal(n: u64) -> (r: String)
    ensures
        r@ == decimal_spec(n as nat),
{
    let mut out = String::new();
    push_decimal(&mut out, n);
    assert(out@ =~= decimal_spec(n as nat));
    out
}

fn push_hex(out: &mut String, n: u64)
    ensures
        final(out)@ == old(out)@ + hex_spec(n as nat),
    decreases n,
{
    if n >= 16 {
        push_hex(out, n / 16);
    }
    out.append(digit_str(n % 16));
    proof {
        if n >= 16 {
            assert(old(out)@ + hex_spec(n as nat) =~= old(out)@ + hex_spec((n / 16) as nat)
                + seq![hex_digit_char((n % 16) as nat)]);
        } else {
            assert(hex_spec(n as nat) =~= seq![hex_digit_char(n as nat)]);
        }
    }
}

spec fn pow16(k: nat) -> nat
    decreases k,
{
    if k == 0 {
        1
    } else {
        16 * pow16((k - 1) as nat)
    }
}

proof fn lemma_hex_len_bound(n: nat, k: nat)
    requires
        n < pow16(k),
        k >= 1,
    ensures
        hex_spec(n).len() <= k,
    decreases k,
{
    if n >= 16 {
        let q = pow16((k - 1) as nat);
        if k == 1 {
            assert(pow16(0) == 1);
            assert(false);
        }
        assert(n / 16 < q) by (nonlinear_arith)
            requires
                n < 16 * q,
        ;
        lemma_hex_len_bound(n / 16, (k - 1) as nat);
    }
}

/// A value below 2^32 padded to width four is four to eight lowercase
/// hexadecimal digits.
pub proof fn lemma_hex_padded_shape(n: nat)
    requires
        n < 0x1_0000_0000,
    ensures
        4 <= hex_padded_spec(n, 4).len() <= 8,
        forall|k: int|
            0 <= k < hex_padded_spec(n, 4).len() ==> is_lower_hex_digit(
                #[trigger] hex_padded_spec(n, 4)[k],
            ),
{
    reveal_with_fuel(pow16, 9);
    assert(pow16(8) == 0x1_0000_0000);
    lemma_hex_len_bound(n, 8);
    lemma_hex_digits(n);
    let h = hex_spec(n);
    let r = hex_padded_spec(n, 4);
    if h.len() < 4 {
        let z = Seq::new((4 - h.len()) as nat, |_i: int| '0');
        assert forall|k: int| 0 <= k < r.len() implies is_lower_hex_digit(#[trigger] r[k]) by {
            if k < z.len() {
                assert(r[k] == '0');
            } else {
                assert(r[k] == h[k - z.len()]);
            }
        }
    }
}

/// Formats `n` in lowercase hexadecimal padded with zeros to at least
/// `width` characters, as `format!("{:0width$x}", n)` does.
pub fn hex_padded(n: u32, width: usize) -> (r: String)
    ensures
        r@ == hex_padded_spec(n as nat, width as nat),
{
    let mut digits = String::new();
    push_hex(&mut digits, n as u64);
    assert(digits@ =~= hex_spec(n as nat));
    proof {
        reveal_with_fuel(pow16, 9);
        assert(pow16(8) == 0x1_0000_0000);
        lemma_hex_len_bound(n as nat, 8);
    }
    let len = digits.as_str().unicode_len();
    let mut out = String::new();
    let mut i: usize = len;
    while i < width
        invariant
            len == hex_spec(n as nat).len(),
            len <= i,
            i <= width || len > width,
            len >= width ==> i == len,
            out@ =~= Seq::new((i - len) as nat, |_k: int| '0'),
        decreases width - i,
    {
        out.append("0");
        proof {
            reveal_strlit("0");
        }
        i = i + 1;
    }
    out.append(digits.as_str());
    proof {
        let h = hex_spec(n as nat);
        if h.len() < width {
            assert(i == width);
            assert(out@ =~= Seq::new((width - h.len()) as nat, |_k: int| '0') + h);
        } else {
            assert(i == len);
            assert(out@ =~= h);
        }
    }
    out
}

} // verus!
