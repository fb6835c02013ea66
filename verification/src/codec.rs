use vstd::prelude::*;
use crate::messages::{wf_char, wf_text, MessageModel, SignalingMessage, opt_text_view};
use crate::{DecodingError, EncodingError};

verus! {

// ---------------------------------------------------------------------
// String escaping: the wire format carries text fields inside quoted
// strings; the quote, the backslash and the three text controls travel
// as two-character escapes, every other character as itself.
// ---------------------------------------------------------------------

/// The character must travel as a two-character escape.
pub open spec fn needs_escape(c: char) -> bool {
    c == '"' || c == '\\' || c == '\n' || c == '\r' || c == '\t'
}

/// The second character of the escape pair for `c`.
pub open spec fn code_of(c: char) -> char {
    if c == '"' {
        '"'
    } else if c == '\\' {
        '\\'
    } else if c == '\n' {
        'n'
    } else if c == '\r' {
        'r'
    } else {
        't'
    }
}

/// A valid second character of an escape pair.
pub open spec fn is_esc_code(c: char) -> bool {
    c == '"' || c == '\\' || c == 'n' || c == 'r' || c == 't'
}

/// The character an escape pair stands for.
pub open spec fn unesc_code(c: char) -> char {
    if c == '"' {
        '"'
    } else if c == '\\' {
        '\\'
    } else if c == 'n' {
        '\n'
    } else if c == 'r' {
        '\r'
    } else {
        '\t'
    }
}

/// A character that travels as itself inside a quoted string.
pub open spec fn plain_char(c: char) -> bool {
    !needs_escape(c) && (c as u32) >= 32
}

/// The wire form of one character.
pub open spec fn esc_char(c: char) -> Seq<char> {
    if needs_escape(c) {
        seq!['\\', code_of(c)]
    } else {
        seq![c]
    }
}

/// The wire form of a text: each character escaped as needed.
pub open spec fn esc(s: Seq<char>) -> Seq<char>
    decreases s.len(),
{
    if s.len() == 0 {
        Seq::empty()
    } else {
        esc_char(s[0]) + esc(s.drop_first())
    }
}

/// Reading a quoted string's content from position `i` of `t` up to and
/// including its closing quote: the unescaped content and the position
/// just past the quote.
pub open spec fn parse_str(t: Seq<char>, i: int) -> Option<(Seq<char>, int)>
    decreases t.len() - i,
{
    if i < 0 || i >= t.len() {
        Option::None
    } else if t[i] == '"' {
        Option::Some((Seq::empty(), i + 1))
    } else if t[i] == '\\' {
        if i + 1 < t.len() && is_esc_code(t[i + 1]) {
            match parse_str(t, i + 2) {
                Option::Some((s, j)) => Option::Some((seq![unesc_code(t[i + 1])] + s, j)),
                Option::None => Option::None,
            }
        } else {
            Option::None
        }
    } else if plain_char(t[i]) {
        match parse_str(t, i + 1) {
            Option::Some((s, j)) => Option::Some((seq![t[i]] + s, j)),
            Option::None => Option::None,
        }
    } else {
        Option::None
    }
}

/// Whatever a quoted string parses to is well-formed text, and the
/// parse makes progress without running past the end.
proof fn lemma_parse_str_wf(t: Seq<char>, i: int)
    ensures
        parse_str(t, i) matches Option::Some((s, j)) ==> wf_text(s) && i < j <= t.len(),
    decreases t.len() - i,
{
    if 0 <= i < t.len() {
        if t[i] == '"' {
        } else if t[i] == '\\' {
            if i + 1 < t.len() && is_esc_code(t[i + 1]) {
                lemma_parse_str_wf(t, i + 2);
                if let Option::Some((s, j)) = parse_str(t, i + 2) {
                    let s2 = seq![unesc_code(t[i + 1])] + s;
                    assert(wf_char(unesc_code(t[i + 1])));
                    assert forall|k: int| 0 <= k < s2.len() implies wf_char(#[trigger] s2[k]) by {
                        if k > 0 {
                            assert(s2[k] == s[k - 1]);
                        }
                    }
                }
            }
        } else if plain_char(t[i]) {
            lemma_parse_str_wf(t, i + 1);
            if let Option::Some((s, j)) = parse_str(t, i + 1) {
                let s2 = seq![t[i]] + s;
                assert(wf_char(t[i]));
                assert forall|k: int| 0 <= k < s2.len() implies wf_char(#[trigger] s2[k]) by {
                    if k > 0 {
                        assert(s2[k] == s[k - 1]);
                    }
                }
            }
        }
    }
}

/// Reading back what `esc` wrote: if `t` carries the escaped form of a
/// well-formed `s` starting at `i`, closed by a quote, the parse
/// recovers exactly `s` and stops just past that quote.
proof fn lemma_parse_esc_at(t: Seq<char>, i: int, s: Seq<char>)
    requires
        wf_text(s),
        0 <= i,
        i + esc(s).len() + 1 <= t.len(),
        forall|k: int| 0 <= k < esc(s).len() ==> t[i + k] == #[trigger] esc(s)[k],
        t[i + esc(s).len()] == '"',
    ensures
        parse_str(t, i) == Option::Some((s, i + esc(s).len() + 1)),
    decreases s.len(),
{
    if s.len() == 0 {
        assert(esc(s).len() == 0);
        assert(t[i] == '"');
    } else {
        let c = s[0];
        let s1 = s.drop_first();
        assert(wf_char(c));
        assert(esc(s) == esc_char(c) + esc(s1));
        assert(esc(s).len() == esc_char(c).len() + esc(s1).len());
        let d = esc_char(c).len();
        assert forall|k: int| 0 <= k < esc(s1).len() implies t[(i + d) + k] == #[trigger] esc(
            s1,
        )[k] by {
            assert(esc(s)[d + k] == esc(s1)[k]);
            assert(t[i + (d + k)] == esc(s)[d + k]);
        }
        assert(t[(i + d) + esc(s1).len()] == '"');
        lemma_parse_esc_at(t, i + d, s1);
        if needs_escape(c) {
            assert(esc_char(c) == seq!['\\', code_of(c)]);
            assert(t[i] == esc(s)[0]);
            assert(esc(s)[0] == '\\');
            assert(t[i + 1] == esc(s)[1]);
            assert(esc(s)[1] == code_of(c));
            assert(is_esc_code(code_of(c)));
            assert(unesc_code(code_of(c)) == c);
            assert(parse_str(t, i) == Option::Some(
                (seq![c] + s1, i + d + esc(s1).len() + 1),
            ));
            assert(seq![c] + s1 =~= s);
        } else {
            assert(plain_char(c));
            assert(t[i] == esc(s)[0]);
            assert(esc(s)[0] == c);
            assert(t[i] != '"' && t[i] != '\\');
            assert(parse_str(t, i) == Option::Some(
                (seq![c] + s1, i + d + esc(s1).len() + 1),
            ));
            assert(seq![c] + s1 =~= s);
        }
    }
}

// ---------------------------------------------------------------------
// Executable counterparts of the escape layer.
// ---------------------------------------------------------------------

/// Relies on String::push: appends exactly the one character.
#[verifier::external_body]
fn push_char(out: &mut String, c: char)
    ensures
        final(out)@ == old(out)@.push(c),
{
    out.push(c);
}

/// Every character of the text can travel in a quoted string.
pub fn text_is_wf(s: &str) -> (r: bool)
    ensures
        r == wf_text(s@),
{
    let n = s.unicode_len();
    let mut i: usize = 0;
    while i < n
        invariant
            n == s@.len(),
            i <= n,
            forall|k: int| 0 <= k < i ==> wf_char(#[trigger] s@[k]),
        decreases n - i,
    {
        let c = s.get_char(i);
        if !(c as u32 >= 32 || c == '\n' || c == '\r' || c == '\t') {
            return false;
        }
        i += 1;
    }
    true
}

/// Append the escaped wire form of `s` to `out`.
fn append_escaped(out: &mut String, s: &str)
    ensures
        final(out)@ == old(out)@ + esc(s@),
{
    let n = s.unicode_len();
    let mut i: usize = 0;
    proof {
        assert(out@ =~= old(out)@ + esc(s@.subrange(0, 0)));
    }
    while i < n
        invariant
            n == s@.len(),
            i <= n,
            out@ == old(out)@ + esc(s@.subrange(0, i as int)),
        decreases n - i,
    {
        let c = s.get_char(i);
        let ghost pre = s@.subrange(0, i as int);
        let ghost post = s@.subrange(0, i as int + 1);
        proof {
            assert(post =~= pre.push(c));
            lemma_esc_snoc(pre, c);
        }
        if c == '"' {
            push_char(out, '\\');
            push_char(out, '"');
        } else if c == '\\' {
            push_char(out, '\\');
            push_char(out, '\\');
        } else if c == '\n' {
            push_char(out, '\\');
            push_char(out, 'n');
        } else if c == '\r' {
            push_char(out, '\\');
            push_char(out, 'r');
        } else if c == '\t' {
            push_char(out, '\\');
            push_char(out, 't');
        } else {
            push_char(out, c);
        }
        proof {
            assert(out@ =~= old(out)@ + esc(post));
        }
        i += 1;
    }
    proof {
        assert(s@.subrange(0, n as int) =~= s@);
    }
}

/// Escaping one more character appends its wire form.
proof fn lemma_esc_snoc(s: Seq<char>, c: char)
    ensures
        esc(s.push(c)) == esc(s) + esc_char(c),
    decreases s.len(),
{
    if s.len() == 0 {
        let x = s.push(c);
        assert(x.len() == 1);
        assert(x[0] == c);
        assert(x.drop_first() =~= Seq::<char>::empty());
        assert(esc(Seq::<char>::empty()) == Seq::<char>::empty());
        assert(esc(x) == esc_char(x[0]) + esc(x.drop_first()));
        assert(esc(s) == Seq::<char>::empty());
        assert(esc(x) =~= esc(s) + esc_char(c));
    } else {
        let s2 = s.push(c);
        assert(s2[0] == s[0]);
        assert(s2.drop_first() =~= s.drop_first().push(c));
        lemma_esc_snoc(s.drop_first(), c);
        assert(esc(s2) == esc_char(s[0]) + (esc(s.drop_first()) + esc_char(c)));
        assert(esc_char(s[0]) + (esc(s.drop_first()) + esc_char(c)) =~= (esc_char(s[0]) + esc(
            s.drop_first(),
        )) + esc_char(c));
    }
}

/// Continuing a string parse with content already accumulated.
spec fn parse_str_with(acc: Seq<char>, t: Seq<char>, i: int) -> Option<(Seq<char>, int)> {
    match parse_str(t, i) {
        Option::Some((s, j)) => Option::Some((acc + s, j)),
        Option::None => Option::None,
    }
}

/// Read a quoted string's content, mirroring `parse_str`.
fn parse_string_exec(t: &str, start: usize, n: usize) -> (r: Option<(String, usize)>)
    requires
        n == t@.len(),
        start <= n,
    ensures
        match r {
            Option::Some(p) => parse_str(t@, start as int) == Option::Some((p.0@, p.1 as int))
                && start < p.1 <= n,
            Option::None => parse_str(t@, start as int) is None,
        },
{
    let mut acc = String::new();
    let mut i = start;
    while i < n
        invariant
            n == t@.len(),
            start <= i <= n,
            parse_str(t@, start as int) == parse_str_with(acc@, t@, i as int),
        decreases n - i,
    {
        let c = t.get_char(i);
        if c == '"' {
            proof {
                assert(acc@ + Seq::<char>::empty() =~= acc@);
            }
            return Option::Some((acc, i + 1));
        } else if c == '\\' {
            if i + 1 >= n {
                return Option::None;
            }
            let c2 = t.get_char(i + 1);
            let u: char = if c2 == '"' {
                '"'
            } else if c2 == '\\' {
                '\\'
            } else if c2 == 'n' {
                '\n'
            } else if c2 == 'r' {
                '\r'
            } else if c2 == 't' {
                '\t'
            } else {
                return Option::None;
            };
            let ghost oldacc = acc@;
            push_char(&mut acc, u);
            proof {
                assert(u == unesc_code(t@[i as int + 1]));
                if let Option::Some((s, j)) = parse_str(t@, i as int + 2) {
                    assert(oldacc + (seq![u] + s) =~= acc@ + s);
                }
            }
            i += 2;
        } else if c as u32 >= 32 {
            let ghost oldacc = acc@;
            push_char(&mut acc, c);
            proof {
                if let Option::Some((s, j)) = parse_str(t@, i as int + 1) {
                    assert(oldacc + (seq![c] + s) =~= acc@ + s);
                }
            }
            i += 1;
        } else {
            return Option::None;
        }
    }
    Option::None
}

// ---------------------------------------------------------------------
// Decimal numbers: the media-line index travels as a plain decimal.
// ---------------------------------------------------------------------

/// A decimal digit character.
pub open spec fn is_digit(c: char) -> bool {
    48 <= (c as u32) <= 57
}

/// The digit character for a value below ten.
pub open spec fn digit_char(n: int) -> char {
    if n == 0 {
        '0'
    } else if n == 1 {
        '1'
    } else if n == 2 {
        '2'
    } else if n == 3 {
        '3'
    } else if n == 4 {
        '4'
    } else if n == 5 {
        '5'
    } else if n == 6 {
        '6'
    } else if n == 7 {
        '7'
    } else if n == 8 {
        '8'
    } else {
        '9'
    }
}

/// The value of a digit character.
pub open spec fn digit_val(c: char) -> int {
    (c as u32) - 48
}

/// The canonical decimal form of a non-negative number: no sign, no
/// leading zeros.
pub open spec fn dec_seq(n: int) -> Seq<char>
    decreases n,
{
    if n <= 9 {
        seq![digit_char(n)]
    } else {
        dec_seq(n / 10) + seq![digit_char(n % 10)]
    }
}

/// The value of a digit sequence read as decimal.
pub open spec fn dtn(s: Seq<char>) -> int
    decreases s.len(),
{
    if s.len() == 0 {
        0
    } else {
        dtn(s.drop_last()) * 10 + digit_val(s.last())
    }
}

/// The longest run of digits starting at `i`, and where it ends.
pub open spec fn parse_digits(t: Seq<char>, i: int) -> (Seq<char>, int)
    decreases t.len() - i,
{
    if i < 0 || i >= t.len() || !is_digit(t[i]) {
        (Seq::empty(), i)
    } else {
        let r = parse_digits(t, i + 1);
        (seq![t[i]] + r.0, r.1)
    }
}

/// The canonical decimal form is made of digits and has no leading zero.
proof fn lemma_dec_seq_shape(n: int)
    requires
        0 <= n,
    ensures
        dec_seq(n).len() >= 1,
        forall|k: int| 0 <= k < dec_seq(n).len() ==> is_digit(#[trigger] dec_seq(n)[k]),
        n >= 1 ==> dec_seq(n)[0] != '0',
        n == 0 ==> dec_seq(n).len() == 1,
    decreases n,
{
    if n <= 9 {
        assert(is_digit(digit_char(n)));
    } else {
        lemma_dec_seq_shape(n / 10);
        assert(is_digit(digit_char(n % 10)));
        let a = dec_seq(n / 10);
        let s = dec_seq(n);
        assert(s == a + seq![digit_char(n % 10)]);
        assert forall|k: int| 0 <= k < s.len() implies is_digit(#[trigger] s[k]) by {
            if k < a.len() {
                assert(s[k] == a[k]);
            } else {
                assert(s[k] == digit_char(n % 10));
            }
        }
        assert(s[0] == a[0]);
    }
}

/// Reading the canonical decimal form back gives the number.
proof fn lemma_dtn_dec_seq(n: int)
    requires
        0 <= n,
    ensures
        dtn(dec_seq(n)) == n,
    decreases n,
{
    if n <= 9 {
        let s = dec_seq(n);
        assert(s.drop_last() =~= Seq::<char>::empty());
        assert(s.last() == digit_char(n));
        assert(dtn(Seq::<char>::empty()) == 0);
        assert(dtn(s) == dtn(s.drop_last()) * 10 + digit_val(s.last()));
        assert(digit_val(digit_char(n)) == n);
    } else {
        lemma_dtn_dec_seq(n / 10);
        let a = dec_seq(n / 10);
        let s = dec_seq(n);
        assert(s == a + seq![digit_char(n % 10)]);
        assert(s.drop_last() =~= a);
        assert(s.last() == digit_char(n % 10));
        assert(dtn(s) == dtn(s.drop_last()) * 10 + digit_val(s.last()));
        assert(0 <= n % 10 <= 9);
        assert(digit_val(digit_char(n % 10)) == n % 10);
        vstd::arithmetic::div_mod::lemma_fundamental_div_mod(n, 10);
    }
}

/// Values up to five digits keep their canonical form at most five long.
proof fn lemma_dec_seq_len(n: int)
    requires
        0 <= n,
    ensures
        n <= 9 ==> dec_seq(n).len() == 1,
        n <= 99 ==> dec_seq(n).len() <= 2,
        n <= 999 ==> dec_seq(n).len() <= 3,
        n <= 9999 ==> dec_seq(n).len() <= 4,
        n <= 99999 ==> dec_seq(n).len() <= 5,
    decreases n,
{
    if n > 9 {
        lemma_dec_seq_len(n / 10);
        assert(n <= 99 ==> n / 10 <= 9) by (nonlinear_arith);
        assert(n <= 999 ==> n / 10 <= 99) by (nonlinear_arith);
        assert(n <= 9999 ==> n / 10 <= 999) by (nonlinear_arith);
        assert(n <= 99999 ==> n / 10 <= 9999) by (nonlinear_arith);
        assert(dec_seq(n).len() == dec_seq(n / 10).len() + 1);
    }
}

/// A digit run laid out in `t` is read back exactly, stopping at the
/// first non-digit.
proof fn lemma_parse_digits_exact(t: Seq<char>, i: int, d: Seq<char>)
    requires
        0 <= i,
        i + d.len() <= t.len(),
        forall|k: int| 0 <= k < d.len() ==> is_digit(#[trigger] d[k]),
        forall|k: int| 0 <= k < d.len() ==> t[i + k] == #[trigger] d[k],
        i + d.len() == t.len() || !is_digit(t[i + d.len()]),
    ensures
        parse_digits(t, i) == (d, i + d.len()),
    decreases d.len(),
{
    if d.len() == 0 {
    } else {
        let d1 = d.drop_first();
        assert(t[i] == d[0]);
        assert forall|k: int| 0 <= k < d1.len() implies t[(i + 1) + k] == #[trigger] d1[k] by {
            assert(d1[k] == d[k + 1]);
            assert(t[i + (k + 1)] == d[k + 1]);
        }
        lemma_parse_digits_exact(t, i + 1, d1);
        assert(seq![t[i]] + d1 =~= d);
    }
}

/// What `parse_digits` returns is digits, exactly spanning `i` to the end
/// position.
proof fn lemma_parse_digits_shape(t: Seq<char>, i: int)
    requires
        0 <= i <= t.len(),
    ensures
        ({
            let r = parse_digits(t, i);
            i <= r.1 <= t.len() && r.0.len() == r.1 - i && forall|k: int|
                0 <= k < r.0.len() ==> is_digit(#[trigger] r.0[k])
        }),
    decreases t.len() - i,
{
    if i < t.len() && is_digit(t[i]) {
        lemma_parse_digits_shape(t, i + 1);
        let r1 = parse_digits(t, i + 1);
        let r = parse_digits(t, i);
        assert(r.0 == seq![t[i]] + r1.0);
        assert forall|k: int| 0 <= k < r.0.len() implies is_digit(#[trigger] r.0[k]) by {
            if k == 0 {
                assert(r.0[0] == t[i]);
            } else {
                assert(r.0[k] == r1.0[k - 1]);
            }
        }
    }
}

/// Append the canonical decimal form of `n` to `out`.
fn append_u16(out: &mut String, n: u16)
    ensures
        final(out)@ == old(out)@ + dec_seq(n as int),
    decreases n,
{
    if n <= 9 {
        push_char(out, digit_char_exec(n));
        proof {
            assert(old(out)@.push(digit_char(n as int)) =~= old(out)@ + dec_seq(n as int));
        }
    } else {
        append_u16(out, n / 10);
        push_char(out, digit_char_exec(n % 10));
        proof {
            assert(dec_seq(n as int) == dec_seq(n as int / 10) + seq![digit_char(n as int % 10)]);
            assert((old(out)@ + dec_seq(n as int / 10)).push(digit_char(n as int % 10)) =~= old(
                out,
            )@ + dec_seq(n as int));
        }
    }
}

/// The digit character for a value below ten.
fn digit_char_exec(d: u16) -> (c: char)
    requires
        d <= 9,
    ensures
        c == digit_char(d as int),
{
    if d == 0 {
        '0'
    } else if d == 1 {
        '1'
    } else if d == 2 {
        '2'
    } else if d == 3 {
        '3'
    } else if d == 4 {
        '4'
    } else if d == 5 {
        '5'
    } else if d == 6 {
        '6'
    } else if d == 7 {
        '7'
    } else if d == 8 {
        '8'
    } else {
        '9'
    }
}

/// Read the longest digit run, mirroring `parse_digits`.
fn parse_digits_exec(t: &str, start: usize, n: usize) -> (r: (Vec<char>, usize))
    requires
        n == t@.len(),
        start <= n,
    ensures
        (r.0@, r.1 as int) == parse_digits(t@, start as int),
        start <= r.1 <= n,
{
    let mut acc: Vec<char> = Vec::new();
    let mut i = start;
    let mut stop = false;
    while !stop && i < n
        invariant
            n == t@.len(),
            start <= i <= n,
            parse_digits(t@, start as int).0 == acc@ + parse_digits(t@, i as int).0,
            parse_digits(t@, start as int).1 == parse_digits(t@, i as int).1,
            stop ==> i < n && !is_digit(t@[i as int]),
        decreases n - i, (if stop { 0int } else { 1int }),
    {
        let c = t.get_char(i);
        if c as u32 >= 48 && c as u32 <= 57 {
            let ghost oldacc = acc@;
            acc.push(c);
            proof {
                let r1 = parse_digits(t@, i as int + 1);
                assert(oldacc + (seq![c] + r1.0) =~= acc@ + r1.0);
            }
            i += 1;
        } else {
            stop = true;
        }
    }
    proof {
        assert(i == n || !is_digit(t@[i as int]));
        assert(parse_digits(t@, i as int).0 =~= Seq::<char>::empty());
        assert(acc@ + Seq::<char>::empty() =~= acc@);
        lemma_parse_digits_shape(t@, start as int);
    }
    (acc, i)
}

/// Powers of ten, for bounding accumulated digit values.
spec fn pow10(k: nat) -> int
    decreases k,
{
    if k == 0 {
        1
    } else {
        10 * pow10((k - 1) as nat)
    }
}

/// The value of a run of at most five digits, if it fits a `u16`.
fn digits_to_u16(d: &Vec<char>) -> (r: Option<u16>)
    requires
        forall|k: int| 0 <= k < d@.len() ==> is_digit(#[trigger] d@[k]),
        d@.len() <= 5,
    ensures
        match r {
            Option::Some(v) => dtn(d@) == v as int,
            Option::None => dtn(d@) > 65535,
        },
{
    let mut acc: u32 = 0;
    let mut i: usize = 0;
    proof {
        assert(pow10(0) == 1);
        assert(pow10(1) == 10);
        assert(pow10(2) == 100);
        assert(pow10(3) == 1000);
        assert(pow10(4) == 10000);
        assert(pow10(5) == 100000);
        assert(d@.subrange(0, 0) =~= Seq::<char>::empty());
    }
    while i < d.len()
        invariant
            i <= d@.len() <= 5,
            forall|k: int| 0 <= k < d@.len() ==> is_digit(#[trigger] d@[k]),
            acc as int == dtn(d@.subrange(0, i as int)),
            (acc as int) < pow10(i as nat),
            pow10(5) == 100000,
            forall|k: nat| k < 5 ==> 10 * #[trigger] pow10(k) == pow10((k + 1) as nat),
        decreases d@.len() - i,
    {
        let c = d[i];
        let dv: u32 = c as u32 - 48;
        proof {
            let pre = d@.subrange(0, i as int);
            let post = d@.subrange(0, i as int + 1);
            assert(post.drop_last() =~= pre);
            assert(post.last() == d@[i as int]);
        }
        acc = acc * 10 + dv;
        i += 1;
    }
    proof {
        assert(d@.subrange(0, d@.len() as int) =~= d@);
    }
    if acc <= 65535 {
        Option::Some(acc as u16)
    } else {
        Option::None
    }
}

// ---------------------------------------------------------------------
// The message grammar: one wire unit is a tagged object whose payload
// fields come in a fixed canonical order, exactly as `encode` lays
// them out.
// ---------------------------------------------------------------------

/// Opening of an offer message, up to the start of the description text.
pub open spec fn lit_offer_pre() -> Seq<char> {
    "{\"type\":\"offer\",\"payload\":{\"sdp\":\""@
}

/// Opening of an answer message, up to the start of the description text.
pub open spec fn lit_answer_pre() -> Seq<char> {
    "{\"type\":\"answer\",\"payload\":{\"sdp\":\""@
}

/// Opening of a candidate message, up to the start of the candidate text.
pub open spec fn lit_ice_pre() -> Seq<char> {
    "{\"type\":\"ice-candidate\",\"payload\":{\"candidate\":\""@
}

/// Key of the media-line grouping field.
pub open spec fn lit_mid_key() -> Seq<char> {
    ",\"sdpMid\":"@
}

/// Key of the media-line index field.
pub open spec fn lit_mline_key() -> Seq<char> {
    ",\"sdpMLineIndex\":"@
}

/// Key of the peer identity field, up to the start of its text.
pub open spec fn lit_client_key() -> Seq<char> {
    ",\"client_id\":\""@
}

/// Closing braces of payload and message.
pub open spec fn lit_close() -> Seq<char> {
    "}}"@
}

/// The absent-value marker.
pub open spec fn lit_null() -> Seq<char> {
    "null"@
}

/// The wire form of an optional grouping field.
pub open spec fn enc_opt_mid(o: Option<Seq<char>>) -> Seq<char> {
    match o {
        Option::Some(m) => seq!['"'] + esc(m) + seq!['"'],
        Option::None => lit_null(),
    }
}

/// The wire form of an optional media-line index.
pub open spec fn enc_opt_idx(o: Option<u16>) -> Seq<char> {
    match o {
        Option::Some(v) => dec_seq(v as int),
        Option::None => lit_null(),
    }
}

/// The full wire form of a message.
pub open spec fn encode_model(m: MessageModel) -> Seq<char> {
    match m {
        MessageModel::Offer { peer, sdp } => lit_offer_pre() + esc(sdp) + seq!['"']
            + lit_client_key() + esc(peer) + seq!['"'] + lit_close(),
        MessageModel::Answer { peer, sdp } => lit_answer_pre() + esc(sdp) + seq!['"']
            + lit_client_key() + esc(peer) + seq!['"'] + lit_close(),
        MessageModel::IceCandidate { peer, candidate, sdp_mid, sdp_mline_index } => lit_ice_pre()
            + esc(candidate) + seq!['"'] + lit_mid_key() + enc_opt_mid(sdp_mid) + lit_mline_key()
            + enc_opt_idx(sdp_mline_index) + lit_client_key() + esc(peer) + seq!['"']
            + lit_close(),
    }
}

/// The text carries exactly `lit` starting at position `i`.
pub open spec fn lit_at(t: Seq<char>, i: int, lit: Seq<char>) -> bool {
    0 <= i && i + lit.len() <= t.len() && forall|k: int|
        0 <= k < lit.len() ==> t[i + k] == #[trigger] lit[k]
}

/// A literal made of two parts lies at `i` exactly when the parts lie
/// there back to back.
proof fn lemma_lit_at_split(t: Seq<char>, i: int, a: Seq<char>, b: Seq<char>)
    requires
        lit_at(t, i, a + b),
    ensures
        lit_at(t, i, a),
        lit_at(t, i + a.len(), b),
{
    assert forall|k: int| 0 <= k < a.len() implies t[i + k] == #[trigger] a[k] by {
        assert((a + b)[k] == a[k]);
        assert(t[i + k] == (a + b)[k]);
    }
    assert forall|k: int| 0 <= k < b.len() implies t[(i + a.len()) + k] == #[trigger] b[k] by {
        assert((a + b)[a.len() + k] == b[k]);
        assert(t[i + (a.len() + k)] == (a + b)[a.len() + k]);
    }
}

/// Reading the trailing peer identity: the `client_id` key, the quoted
/// identity, and the closing braces ending the text.
pub open spec fn dec_tail_peer(t: Seq<char>, i: int) -> Option<(Seq<char>, int)> {
    if lit_at(t, i, lit_client_key()) {
        match parse_str(t, i + lit_client_key().len()) {
            Option::Some((peer, j)) => if lit_at(t, j, lit_close()) && j + lit_close().len()
                == t.len() {
                Option::Some((peer, j))
            } else {
                Option::None
            },
            Option::None => Option::None,
        }
    } else {
        Option::None
    }
}

/// Reading an offer or answer payload from position `i`.
pub open spec fn dec_body_sdp(t: Seq<char>, i: int, offer: bool) -> Option<MessageModel> {
    match parse_str(t, i) {
        Option::Some((sdp, j)) => match dec_tail_peer(t, j) {
            Option::Some((peer, _k)) => Option::Some(
                if offer {
                    MessageModel::Offer { peer, sdp }
                } else {
                    MessageModel::Answer { peer, sdp }
                },
            ),
            Option::None => Option::None,
        },
        Option::None => Option::None,
    }
}

/// Reading an optional quoted grouping field.
pub open spec fn dec_opt_mid(t: Seq<char>, i: int) -> Option<(Option<Seq<char>>, int)> {
    if 0 <= i < t.len() && t[i] == '"' {
        match parse_str(t, i + 1) {
            Option::Some((m, j)) => Option::Some((Option::Some(m), j)),
            Option::None => Option::None,
        }
    } else if lit_at(t, i, lit_null()) {
        Option::Some((Option::None, i + lit_null().len()))
    } else {
        Option::None
    }
}

/// Reading an optional media-line index: `null`, or a canonical decimal
/// that fits an unsigned sixteen-bit value.
pub open spec fn dec_opt_idx(t: Seq<char>, i: int) -> Option<(Option<u16>, int)> {
    if lit_at(t, i, lit_null()) {
        Option::Some((Option::None, i + lit_null().len()))
    } else {
        let r = parse_digits(t, i);
        if 1 <= r.0.len() <= 5 && (r.0.len() == 1 || r.0[0] != '0') && dtn(r.0) <= 65535 {
            Option::Some((Option::Some(dtn(r.0) as u16), r.1))
        } else {
            Option::None
        }
    }
}

/// Reading a candidate payload from position `i`.
pub open spec fn dec_body_ice(t: Seq<char>, i: int) -> Option<MessageModel> {
    match parse_str(t, i) {
        Option::Some((candidate, j)) => if lit_at(t, j, lit_mid_key()) {
            match dec_opt_mid(t, j + lit_mid_key().len()) {
                Option::Some((sdp_mid, j2)) => if lit_at(t, j2, lit_mline_key()) {
                    match dec_opt_idx(t, j2 + lit_mline_key().len()) {
                        Option::Some((idx, j3)) => match dec_tail_peer(t, j3) {
                            Option::Some((peer, _k)) => Option::Some(
                                MessageModel::IceCandidate {
                                    peer,
                                    candidate,
                                    sdp_mid,
                                    sdp_mline_index: idx,
                                },
                            ),
                            Option::None => Option::None,
                        },
                        Option::None => Option::None,
                    }
                } else {
                    Option::None
                },
                Option::None => Option::None,
            }
        } else {
            Option::None
        },
        Option::None => Option::None,
    }
}

/// What a text on the wire denotes, if anything: the tag selects the
/// payload shape, and the payload must carry every required field.
pub open spec fn decode_model(t: Seq<char>) -> Option<MessageModel> {
    if lit_at(t, 0, lit_offer_pre()) {
        dec_body_sdp(t, lit_offer_pre().len() as int, true)
    } else if lit_at(t, 0, lit_answer_pre()) {
        dec_body_sdp(t, lit_answer_pre().len() as int, false)
    } else if lit_at(t, 0, lit_ice_pre()) {
        dec_body_ice(t, lit_ice_pre().len() as int)
    } else {
        Option::None
    }
}

// ---------------------------------------------------------------------
// Executable encoding and decoding.
// ---------------------------------------------------------------------

/// Whether `lit` lies at position `i` of `t`.
fn match_lit(t: &str, i: usize, n: usize, lit: &str) -> (r: bool)
    requires
        n == t@.len(),
        i <= n,
    ensures
        r == lit_at(t@, i as int, lit@),
{
    let m = lit.unicode_len();
    if m > n - i {
        return false;
    }
    let mut k: usize = 0;
    while k < m
        invariant
            m == lit@.len(),
            n == t@.len(),
            i + m <= n,
            k <= m,
            forall|q: int| 0 <= q < k ==> t@[i + q] == #[trigger] lit@[q],
        decreases m - k,
    {
        if t.get_char(i + k) != lit.get_char(k) {
            return false;
        }
        k += 1;
    }
    true
}

/// Read the trailing peer identity, mirroring `dec_tail_peer`.
fn decode_tail_peer(t: &str, i: usize, n: usize) -> (r: Option<String>)
    requires
        n == t@.len(),
        i <= n,
    ensures
        match r {
            Option::Some(peer) => (dec_tail_peer(t@, i as int) matches Option::Some(p) && p.0
                == peer@) && wf_text(peer@),
            Option::None => dec_tail_peer(t@, i as int) is None,
        },
{
    let key = ",\"client_id\":\"";
    if !match_lit(t, i, n, key) {
        return Option::None;
    }
    let kl = key.unicode_len();
    match parse_string_exec(t, i + kl, n) {
        Option::Some((peer, j)) => {
            let close = "}}";
            if match_lit(t, j, n, close) && j + close.unicode_len() == n {
                proof {
                    lemma_parse_str_wf(t@, i as int + kl as int);
                    assert(dec_tail_peer(t@, i as int) == Option::Some((peer@, j as int)));
                }
                Option::Some(peer)
            } else {
                Option::None
            }
        },
        Option::None => Option::None,
    }
}

/// Read an offer or answer payload, mirroring `dec_body_sdp`.
fn decode_sdp_body(t: &str, i: usize, n: usize, offer: bool) -> (r: Result<
    SignalingMessage,
    DecodingError,
>)
    requires
        n == t@.len(),
        i <= n,
    ensures
        match r {
            Result::Ok(m) => dec_body_sdp(t@, i as int, offer) == Option::Some(m.model())
                && m.valid(),
            Result::Err(_) => dec_body_sdp(t@, i as int, offer) is None,
        },
{
    match parse_string_exec(t, i, n) {
        Option::Some((sdp, j)) => {
            proof {
                lemma_parse_str_wf(t@, i as int);
            }
            match decode_tail_peer(t, j, n) {
                Option::Some(peer) => if offer {
                    Result::Ok(SignalingMessage::Offer { peer, sdp })
                } else {
                    Result::Ok(SignalingMessage::Answer { peer, sdp })
                },
                Option::None => Result::Err(DecodingError),
            }
        },
        Option::None => Result::Err(DecodingError),
    }
}

/// Read an optional quoted grouping field, mirroring `dec_opt_mid`.
fn decode_opt_mid(t: &str, i: usize, n: usize) -> (r: Option<(Option<String>, usize)>)
    requires
        n == t@.len(),
        i <= n,
    ensures
        match r {
            Option::Some(p) => dec_opt_mid(t@, i as int) == Option::Some(
                (opt_text_view(p.0), p.1 as int),
            ) && (p.0 matches Option::Some(m) ==> wf_text(m@)) && p.1 <= n,
            Option::None => dec_opt_mid(t@, i as int) is None,
        },
{
    if i < n && t.get_char(i) == '"' {
        match parse_string_exec(t, i + 1, n) {
            Option::Some((m, j)) => {
                proof {
                    lemma_parse_str_wf(t@, i as int + 1);
                }
                Option::Some((Option::Some(m), j))
            },
            Option::None => Option::None,
        }
    } else {
        let nul = "null";
        if match_lit(t, i, n, nul) {
            Option::Some((Option::None, i + nul.unicode_len()))
        } else {
            Option::None
        }
    }
}

/// Read an optional media-line index, mirroring `dec_opt_idx`.
fn decode_opt_idx(t: &str, i: usize, n: usize) -> (r: Option<(Option<u16>, usize)>)
    requires
        n == t@.len(),
        i <= n,
    ensures
        match r {
            Option::Some(p) => dec_opt_idx(t@, i as int) == Option::Some((p.0, p.1 as int))
                && p.1 <= n,
            Option::None => dec_opt_idx(t@, i as int) is None,
        },
{
    let nul = "null";
    if match_lit(t, i, n, nul) {
        return Option::Some((Option::None, i + nul.unicode_len()));
    }
    let (d, j) = parse_digits_exec(t, i, n);
    if d.len() == 0 || d.len() > 5 {
        return Option::None;
    }
    if d.len() > 1 && d[0] == '0' {
        return Option::None;
    }
    proof {
        lemma_parse_digits_shape(t@, i as int);
    }
    match digits_to_u16(&d) {
        Option::Some(v) => Option::Some((Option::Some(v), j)),
        Option::None => Option::None,
    }
}

/// Read a candidate payload, mirroring `dec_body_ice`.
fn decode_ice_body(t: &str, i: usize, n: usize) -> (r: Result<SignalingMessage, DecodingError>)
    requires
        n == t@.len(),
        i <= n,
    ensures
        match r {
            Result::Ok(m) => dec_body_ice(t@, i as int) == Option::Some(m.model()) && m.valid(),
            Result::Err(_) => dec_body_ice(t@, i as int) is None,
        },
{
    let parsed = match parse_string_exec(t, i, n) {
        Option::Some(p) => p,
        Option::None => {
            return Result::Err(DecodingError);
        },
    };
    let (candidate, j) = parsed;
    proof {
        lemma_parse_str_wf(t@, i as int);
    }
    let midkey = ",\"sdpMid\":";
    if !match_lit(t, j, n, midkey) {
        return Result::Err(DecodingError);
    }
    let j1 = j + midkey.unicode_len();
    let mid = match decode_opt_mid(t, j1, n) {
        Option::Some(p) => p,
        Option::None => {
            return Result::Err(DecodingError);
        },
    };
    let (sdp_mid, j2) = mid;
    let mlkey = ",\"sdpMLineIndex\":";
    if !match_lit(t, j2, n, mlkey) {
        return Result::Err(DecodingError);
    }
    let j3 = j2 + mlkey.unicode_len();
    let idx = match decode_opt_idx(t, j3, n) {
        Option::Some(p) => p,
        Option::None => {
            return Result::Err(DecodingError);
        },
    };
    let (sdp_mline_index, j4) = idx;
    match decode_tail_peer(t, j4, n) {
        Option::Some(peer) => Result::Ok(
            SignalingMessage::IceCandidate { peer, candidate, sdp_mid, sdp_mline_index },
        ),
        Option::None => Result::Err(DecodingError),
    }
}

/// Turn one wire text back into a message. Decoding is pure: it fails
/// exactly on the texts that denote no message, and on success the
/// message is the text's denotation.
pub fn decode(t: &str) -> (r: Result<SignalingMessage, DecodingError>)
    ensures
        match r {
            Result::Ok(m) => decode_model(t@) == Option::Some(m.model()) && m.valid(),
            Result::Err(_) => decode_model(t@) is None,
        },
{
    let n = t.unicode_len();
    let offer_pre = "{\"type\":\"offer\",\"payload\":{\"sdp\":\"";
    let answer_pre = "{\"type\":\"answer\",\"payload\":{\"sdp\":\"";
    let ice_pre = "{\"type\":\"ice-candidate\",\"payload\":{\"candidate\":\"";
    if match_lit(t, 0, n, offer_pre) {
        decode_sdp_body(t, offer_pre.unicode_len(), n, true)
    } else if match_lit(t, 0, n, answer_pre) {
        decode_sdp_body(t, answer_pre.unicode_len(), n, false)
    } else if match_lit(t, 0, n, ice_pre) {
        decode_ice_body(t, ice_pre.unicode_len(), n)
    } else {
        Result::Err(DecodingError)
    }
}

/// Lay out an offer or answer message.
fn encode_sdp_msg(offer: bool, peer: &str, sdp: &str) -> (out: String)
    ensures
        offer ==> out@ == encode_model(MessageModel::Offer { peer: peer@, sdp: sdp@ }),
        !offer ==> out@ == encode_model(MessageModel::Answer { peer: peer@, sdp: sdp@ }),
{
    let mut out = String::new();
    if offer {
        out.append("{\"type\":\"offer\",\"payload\":{\"sdp\":\"");
    } else {
        out.append("{\"type\":\"answer\",\"payload\":{\"sdp\":\"");
    }
    append_escaped(&mut out, sdp);
    push_char(&mut out, '"');
    out.append(",\"client_id\":\"");
    append_escaped(&mut out, peer);
    push_char(&mut out, '"');
    out.append("}}");
    proof {
        if offer {
            assert(out@ =~= encode_model(MessageModel::Offer { peer: peer@, sdp: sdp@ }));
        } else {
            assert(out@ =~= encode_model(MessageModel::Answer { peer: peer@, sdp: sdp@ }));
        }
    }
    out
}

/// Lay out a candidate message.
fn encode_ice_msg(peer: &str, candidate: &str, sdp_mid: &Option<String>, sdp_mline_index: &Option<
    u16,
>) -> (out: String)
    ensures
        out@ == encode_model(
            MessageModel::IceCandidate {
                peer: peer@,
                candidate: candidate@,
                sdp_mid: opt_text_view(*sdp_mid),
                sdp_mline_index: *sdp_mline_index,
            },
        ),
{
    let mut out = String::new();
    out.append("{\"type\":\"ice-candidate\",\"payload\":{\"candidate\":\"");
    append_escaped(&mut out, candidate);
    push_char(&mut out, '"');
    out.append(",\"sdpMid\":");
    match sdp_mid {
        Option::Some(m) => {
            push_char(&mut out, '"');
            append_escaped(&mut out, m.as_str());
            push_char(&mut out, '"');
        },
        Option::None => {
            out.append("null");
        },
    }
    proof {
        assert(out@ =~= lit_ice_pre() + esc(candidate@) + seq!['"'] + lit_mid_key() + enc_opt_mid(
            opt_text_view(*sdp_mid),
        ));
    }
    out.append(",\"sdpMLineIndex\":");
    match sdp_mline_index {
        Option::Some(v) => {
            append_u16(&mut out, *v);
        },
        Option::None => {
            out.append("null");
        },
    }
    proof {
        assert(out@ =~= lit_ice_pre() + esc(candidate@) + seq!['"'] + lit_mid_key() + enc_opt_mid(
            opt_text_view(*sdp_mid),
        ) + lit_mline_key() + enc_opt_idx(*sdp_mline_index));
    }
    out.append(",\"client_id\":\"");
    append_escaped(&mut out, peer);
    push_char(&mut out, '"');
    out.append("}}");
    proof {
        assert(out@ =~= encode_model(
            MessageModel::IceCandidate {
                peer: peer@,
                candidate: candidate@,
                sdp_mid: opt_text_view(*sdp_mid),
                sdp_mline_index: *sdp_mline_index,
            },
        ));
    }
    out
}

/// Put one message on the wire. Succeeds exactly on valid messages and
/// then yields the message's canonical wire form.
pub fn encode(m: &SignalingMessage) -> (r: Result<String, EncodingError>)
    ensures
        r is Ok <==> m.valid(),
        r matches Result::Ok(s) ==> s@ == encode_model(m.model()),
{
    match m {
        SignalingMessage::Offer { peer, sdp } => {
            if !text_is_wf(peer.as_str()) || !text_is_wf(sdp.as_str()) {
                return Result::Err(EncodingError);
            }
            Result::Ok(encode_sdp_msg(true, peer.as_str(), sdp.as_str()))
        },
        SignalingMessage::Answer { peer, sdp } => {
            if !text_is_wf(peer.as_str()) || !text_is_wf(sdp.as_str()) {
                return Result::Err(EncodingError);
            }
            Result::Ok(encode_sdp_msg(false, peer.as_str(), sdp.as_str()))
        },
        SignalingMessage::IceCandidate { peer, candidate, sdp_mid, sdp_mline_index } => {
            if !text_is_wf(peer.as_str()) || !text_is_wf(candidate.as_str()) {
                return Result::Err(EncodingError);
            }
            if let Option::Some(mid) = sdp_mid {
                if !text_is_wf(mid.as_str()) {
                    return Result::Err(EncodingError);
                }
            }
            Result::Ok(encode_ice_msg(peer.as_str(), candidate.as_str(), sdp_mid, sdp_mline_index))
        },
    }
}

// ---------------------------------------------------------------------
// The round-trip law: decoding an encoded message yields the original.
// ---------------------------------------------------------------------

/// The trailing peer identity laid out by `encode` reads back exactly.
proof fn lemma_dec_tail_of_enc(t: Seq<char>, j: int, peer: Seq<char>)
    requires
        wf_text(peer),
        0 <= j,
        j + lit_client_key().len() + esc(peer).len() + 1 + lit_close().len() == t.len(),
        lit_at(t, j, lit_client_key() + (esc(peer) + (seq!['"'] + lit_close()))),
    ensures
        dec_tail_peer(t, j) matches Option::Some(p) && p.0 == peer,
{
    let ck = lit_client_key();
    lemma_lit_at_split(t, j, ck, esc(peer) + (seq!['"'] + lit_close()));
    let j1: int = j + ck.len();
    lemma_lit_at_split(t, j1, esc(peer), seq!['"'] + lit_close());
    let j2: int = j1 + esc(peer).len();
    lemma_lit_at_split(t, j2, seq!['"'], lit_close());
    assert(t[j2] == (seq!['"'])[0]);
    lemma_parse_esc_at(t, j1, peer);
    assert(parse_str(t, j1) == Option::Some((peer, j2 + 1)));
    assert(lit_at(t, j2 + 1, lit_close()));
}

/// Round trip for offers and answers.
proof fn lemma_round_sdp(peer: Seq<char>, sdp: Seq<char>, offer: bool)
    requires
        wf_text(peer),
        wf_text(sdp),
    ensures
        ({
            let m = if offer {
                MessageModel::Offer { peer, sdp }
            } else {
                MessageModel::Answer { peer, sdp }
            };
            decode_model(encode_model(m)) == Option::Some(m)
        }),
{
    reveal_strlit("{\"type\":\"offer\",\"payload\":{\"sdp\":\"");
    reveal_strlit("{\"type\":\"answer\",\"payload\":{\"sdp\":\"");
    reveal_strlit("{\"type\":\"ice-candidate\",\"payload\":{\"candidate\":\"");
    let m = if offer {
        MessageModel::Offer { peer, sdp }
    } else {
        MessageModel::Answer { peer, sdp }
    };
    let t = encode_model(m);
    let pre = if offer {
        lit_offer_pre()
    } else {
        lit_answer_pre()
    };
    let tail = lit_client_key() + (esc(peer) + (seq!['"'] + lit_close()));
    let nested = pre + (esc(sdp) + (seq!['"'] + tail));
    assert(t =~= nested);
    assert forall|k: int| 0 <= k < nested.len() implies t[0 + k] == #[trigger] nested[k] by {}
    assert(lit_at(t, 0, nested));
    lemma_lit_at_split(t, 0, pre, esc(sdp) + (seq!['"'] + tail));
    let i1: int = pre.len() as int;
    lemma_lit_at_split(t, i1, esc(sdp), seq!['"'] + tail);
    let i2: int = i1 + esc(sdp).len();
    lemma_lit_at_split(t, i2, seq!['"'], tail);
    assert(t[i2] == (seq!['"'])[0]);
    lemma_parse_esc_at(t, i1, sdp);
    lemma_dec_tail_of_enc(t, i2 + 1, peer);
    if offer {
        assert(lit_at(t, 0, lit_offer_pre()));
        assert(decode_model(t) == Option::Some(m));
    } else {
        if lit_at(t, 0, lit_offer_pre()) {
            assert(t[9] == lit_offer_pre()[9]);
            assert(t[9] == lit_answer_pre()[9]);
            assert(false);
        }
        assert(lit_at(t, 0, lit_answer_pre()));
        assert(decode_model(t) == Option::Some(m));
    }
}

/// Round trip for candidate messages.
#[verifier::rlimit(100)]
#[verifier::spinoff_prover]
proof fn lemma_round_ice(
    peer: Seq<char>,
    candidate: Seq<char>,
    sdp_mid: Option<Seq<char>>,
    idx: Option<u16>,
)
    requires
        wf_text(peer),
        wf_text(candidate),
        sdp_mid matches Option::Some(mm) ==> wf_text(mm),
    ensures
        ({
            let m = MessageModel::IceCandidate { peer, candidate, sdp_mid, sdp_mline_index: idx };
            decode_model(encode_model(m)) == Option::Some(m)
        }),
{
    reveal_strlit("{\"type\":\"offer\",\"payload\":{\"sdp\":\"");
    reveal_strlit("{\"type\":\"answer\",\"payload\":{\"sdp\":\"");
    reveal_strlit("{\"type\":\"ice-candidate\",\"payload\":{\"candidate\":\"");
    reveal_strlit(",\"sdpMid\":");
    reveal_strlit(",\"sdpMLineIndex\":");
    reveal_strlit(",\"client_id\":\"");
    reveal_strlit("}}");
    reveal_strlit("null");
    let m = MessageModel::IceCandidate { peer, candidate, sdp_mid, sdp_mline_index: idx };
    let t = encode_model(m);
    let midp = enc_opt_mid(sdp_mid);
    let idxp = enc_opt_idx(idx);
    let tail = lit_client_key() + (esc(peer) + (seq!['"'] + lit_close()));
    let nested = lit_ice_pre() + (esc(candidate) + (seq!['"'] + (lit_mid_key() + (midp + (
    lit_mline_key() + (idxp + tail))))));
    assert(t =~= nested);
    assert forall|k: int| 0 <= k < nested.len() implies t[0 + k] == #[trigger] nested[k] by {}
    assert(lit_at(t, 0, nested));
    lemma_lit_at_split(t, 0, lit_ice_pre(), esc(candidate) + (seq!['"'] + (lit_mid_key() + (midp
        + (lit_mline_key() + (idxp + tail))))));
    let i1: int = lit_ice_pre().len() as int;
    lemma_lit_at_split(t, i1, esc(candidate), seq!['"'] + (lit_mid_key() + (midp + (
    lit_mline_key() + (idxp + tail)))));
    let i2: int = i1 + esc(candidate).len();
    lemma_lit_at_split(t, i2, seq!['"'], lit_mid_key() + (midp + (lit_mline_key() + (idxp
        + tail))));
    assert(t[i2] == (seq!['"'])[0]);
    lemma_parse_esc_at(t, i1, candidate);
    let i3: int = i2 + 1;
    lemma_lit_at_split(t, i3, lit_mid_key(), midp + (lit_mline_key() + (idxp + tail)));
    let i4: int = i3 + lit_mid_key().len();
    lemma_lit_at_split(t, i4, midp, lit_mline_key() + (idxp + tail));
    let i5: int = i4 + midp.len();
    match sdp_mid {
        Option::Some(mm) => {
            let midn = seq!['"'] + (esc(mm) + seq!['"']);
            assert(midp =~= midn);
            assert(lit_at(t, i4, midn));
            lemma_lit_at_split(t, i4, seq!['"'], esc(mm) + seq!['"']);
            lemma_lit_at_split(t, i4 + 1, esc(mm), seq!['"']);
            assert(t[i4] == (seq!['"'])[0]);
            assert(t[(i4 + 1) + esc(mm).len()] == (seq!['"'])[0]);
            lemma_parse_esc_at(t, i4 + 1, mm);
            assert(dec_opt_mid(t, i4) == Option::Some((sdp_mid, i5)));
        },
        Option::None => {
            assert(lit_at(t, i4, lit_null()));
            assert(t[i4] == lit_null()[0]);
            assert(dec_opt_mid(t, i4) == Option::Some((Option::None::<Seq<char>>, i5)));
        },
    }
    lemma_lit_at_split(t, i5, lit_mline_key(), idxp + tail);
    let i6: int = i5 + lit_mline_key().len();
    lemma_lit_at_split(t, i6, idxp, tail);
    let i7: int = i6 + idxp.len();
    match idx {
        Option::Some(v) => {
            lemma_dec_seq_shape(v as int);
            lemma_dec_seq_len(v as int);
            lemma_dtn_dec_seq(v as int);
            if lit_at(t, i6, lit_null()) {
                assert(t[i6] == lit_null()[0]);
                assert(t[i6] == idxp[0]);
                assert(is_digit(dec_seq(v as int)[0]));
                assert(false);
            }
            assert(t[i7] == tail[0]);
            assert(tail[0] == lit_client_key()[0]);
            assert(!is_digit(lit_client_key()[0]));
            lemma_parse_digits_exact(t, i6, dec_seq(v as int));
            assert(dec_opt_idx(t, i6) == Option::Some((Option::Some(v), i7)));
        },
        Option::None => {
            assert(lit_at(t, i6, lit_null()));
            assert(dec_opt_idx(t, i6) == Option::Some((Option::None::<u16>, i7)));
        },
    }
    lemma_dec_tail_of_enc(t, i7, peer);
    if lit_at(t, 0, lit_offer_pre()) {
        assert(t[9] == lit_offer_pre()[9]);
        assert(t[9] == lit_ice_pre()[9]);
        assert(false);
    }
    if lit_at(t, 0, lit_answer_pre()) {
        assert(t[9] == lit_answer_pre()[9]);
        assert(t[9] == lit_ice_pre()[9]);
        assert(false);
    }
    assert(lit_at(t, 0, lit_ice_pre()));
    assert(decode_model(t) == Option::Some(m));
}

/// Law: every valid message survives the wire unchanged — decoding the
/// canonical wire form of a well-formed message yields that message.
pub proof fn lemma_round_trip(m: MessageModel)
    requires
        m.wf(),
    ensures
        decode_model(encode_model(m)) == Option::Some(m),
{
    match m {
        MessageModel::Offer { peer, sdp } => lemma_round_sdp(peer, sdp, true),
        MessageModel::Answer { peer, sdp } => lemma_round_sdp(peer, sdp, false),
        MessageModel::IceCandidate { peer, candidate, sdp_mid, sdp_mline_index } => lemma_round_ice(
            peer,
            candidate,
            sdp_mid,
            sdp_mline_index,
        ),
    }
}

} // verus!
