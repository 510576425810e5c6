//! Value formatter: grouping separators and trailing-zero trimming on the
//! decimal rendering of a result, and the inverse that strips the separators.
//!
//! A *rendering* is the decimal text of a number: an optional `-`, digits, and
//! optionally a point followed by the configured number of decimals.  Producing
//! that text from a binary floating-point value is not done here; everything
//! that happens to the text afterwards is.

use vstd::prelude::*;
use crate::text::{
    chars_of, copy_range, find_char, first_index, is_digit, is_digit_char, is_digits,
    is_first_index, lemma_first_index, lemma_first_index_unique, lower, lower_text, lowered,
    push_all, same_chars, string_of,
};

verus! {

/// The grouping separator.
pub const SEPARATOR: char = ',';

pub open spec fn not_separator() -> spec_fn(char) -> bool {
    |c: char| c != ','
}

/// `s` with every grouping separator removed.
pub open spec fn without_separators(s: Seq<char>) -> Seq<char> {
    s.filter(not_separator())
}

/// The digits `d` with a separator before every group of three, counted from
/// the right.
pub open spec fn group_digits(d: Seq<char>) -> Seq<char>
    decreases d.len(),
{
    if d.len() <= 3 {
        d
    } else {
        group_digits(d.take(d.len() - 3)) + seq![','] + d.skip(d.len() - 3)
    }
}

/// Grouping applied to the integer part of a rendering: the digits are
/// grouped, a leading minus sign stays in front, and text that is not an
/// integer numeral is left as it is.
pub open spec fn group_integer(s: Seq<char>) -> Seq<char> {
    if is_digits(s) {
        group_digits(s)
    } else if s.len() > 1 && s[0] == '-' && is_digits(s.skip(1)) {
        seq!['-'] + group_digits(s.skip(1))
    } else {
        s
    }
}

/// `s` without the zeros at its end.
pub open spec fn trim_trailing_zeros(s: Seq<char>) -> Seq<char>
    decreases s.len(),
{
    if s.len() > 0 && s.last() == '0' {
        trim_trailing_zeros(s.drop_last())
    } else {
        s
    }
}

/// The display form of a rendering: integer part grouped, fraction without
/// trailing zeros, and no point when no fraction digit is left.
pub open spec fn formatted(r: Seq<char>) -> Seq<char> {
    let p = first_index(r, '.');
    let whole = group_integer(r.take(p));
    let fraction = if p < r.len() {
        trim_trailing_zeros(r.skip(p + 1))
    } else {
        Seq::empty()
    };
    if fraction.len() == 0 {
        whole
    } else {
        whole + seq!['.'] + fraction
    }
}

/// Removes the grouping separators from a character vector.
pub fn strip_separators(v: &Vec<char>) -> (r: Vec<char>)
    ensures
        r@ == without_separators(v@),
{
    let mut r: Vec<char> = Vec::new();
    let mut i: usize = 0;
    proof {
        reveal(Seq::filter);
    }
    while i < v.len()
        invariant
            i <= v.len(),
            r@ == without_separators(v@.take(i as int)),
        decreases v.len() - i,
    {
        proof {
            assert(v@.take(i + 1) == v@.take(i as int).push(v@[i as int]));
            v@.take(i as int).lemma_filter_push(v@[i as int], not_separator());
        }
        if v[i] != SEPARATOR {
            r.push(v[i]);
        }
        i += 1;
    }
    assert(v@.take(v.len() as int) == v@);
    r
}

/// Removes the grouping separators from a displayed value, so that it can be
/// read as a number again.
pub fn remove_thousands_separator(value: &str) -> (r: String)
    ensures
        r@ == without_separators(value@),
{
    let v = chars_of(value);
    let stripped = strip_separators(&v);
    string_of(&stripped)
}

/// Whether `v` is a non-empty run of ASCII digits.
pub fn all_digits(v: &Vec<char>) -> (r: bool)
    ensures
        r == is_digits(v@),
{
    if v.len() == 0 {
        return false;
    }
    let mut i: usize = 0;
    while i < v.len()
        invariant
            i <= v.len(),
            forall|j: int| 0 <= j < i ==> is_digit(#[trigger] v@[j]),
        decreases v.len() - i,
    {
        if !is_digit_char(v[i]) {
            return false;
        }
        i += 1;
    }
    true
}

/// Inserts the grouping separators into a run of digits.
pub fn group_digit_chars(d: &Vec<char>) -> (r: Vec<char>)
    ensures
        r@ == group_digits(d@),
{
    let n = d.len();
    if n <= 3 {
        return copy_range(d, 0, n);
    }
    let head: usize = if n % 3 == 0 {
        3
    } else {
        n % 3
    };
    let mut r = copy_range(d, 0, head);
    let mut i: usize = head;
    assert(d@.subrange(0, head as int) == d@.take(head as int));
    while i < n
        invariant
            0 < i <= n == d.len(),
            (n - i) % 3 == 0,
            r@ == group_digits(d@.take(i as int)),
        decreases n - i,
    {
        proof {
            let next = d@.take(i + 3);
            assert(next.take(next.len() - 3) == d@.take(i as int));
            assert(next.skip(next.len() - 3) == seq![
                d@[i as int],
                d@[i + 1],
                d@[i + 2],
            ]);
        }
        r.push(SEPARATOR);
        r.push(d[i]);
        r.push(d[i + 1]);
        r.push(d[i + 2]);
        i += 3;
    }
    assert(d@.take(n as int) == d@);
    r
}

/// Groups the integer part of a rendering.
pub fn group_integer_chars(s: &Vec<char>) -> (r: Vec<char>)
    ensures
        r@ == group_integer(s@),
{
    if all_digits(s) {
        return group_digit_chars(s);
    }
    if s.len() > 1 && s[0] == '-' {
        let digits = copy_range(s, 1, s.len());
        assert(digits@ == s@.skip(1));
        if all_digits(&digits) {
            let mut r: Vec<char> = Vec::new();
            r.push('-');
            let grouped = group_digit_chars(&digits);
            push_all(&mut r, &grouped);
            return r;
        }
    }
    copy_range(s, 0, s.len())
}

/// Drops the zeros at the end of a fraction.
pub fn trim_zero_chars(s: &Vec<char>) -> (r: Vec<char>)
    ensures
        r@ == trim_trailing_zeros(s@),
{
    let mut to: usize = s.len();
    assert(s@.take(to as int) == s@);
    while to > 0 && s[to - 1] == '0'
        invariant
            to <= s.len(),
            trim_trailing_zeros(s@) == trim_trailing_zeros(s@.take(to as int)),
        decreases to,
    {
        assert(s@.take(to as int).drop_last() == s@.take(to - 1));
        to -= 1;
    }
    copy_range(s, 0, to)
}

/// Turns the decimal rendering of a result into its display form: a grouping
/// separator every three digits of the integer part, trailing zeros of the
/// fraction removed, and no decimal point left dangling.
pub fn format_with_thousands_separator(rendered: &str) -> (r: String)
    ensures
        r@ == formatted(rendered@),
{
    let v = chars_of(rendered);
    let p = find_char(&v, '.');
    let whole = copy_range(&v, 0, p);
    let mut out = group_integer_chars(&whole);
    assert(whole@ == rendered@.take(p as int));
    if p < v.len() {
        let fraction = copy_range(&v, p + 1, v.len());
        assert(fraction@ == rendered@.skip(p + 1));
        let kept = trim_zero_chars(&fraction);
        if kept.len() > 0 {
            out.push('.');
            push_all(&mut out, &kept);
        }
    }
    string_of(&out)
}

/// The rendering without its minus sign.
pub open spec fn unsigned(r: Seq<char>) -> Seq<char> {
    if r.len() > 0 && r[0] == '-' {
        r.skip(1)
    } else {
        r
    }
}

/// `r` is a decimal numeral: an optional minus sign, digits, and optionally
/// a point followed by digits.
pub open spec fn is_numeral(r: Seq<char>) -> bool {
    let body = unsigned(r);
    let p = first_index(body, '.');
    is_digits(body.take(p)) && (p == body.len() || is_digits(body.skip(p + 1)))
}

/// How many digits follow the point of a numeral.
pub open spec fn decimals(r: Seq<char>) -> int {
    let p = first_index(r, '.');
    if p == r.len() {
        0
    } else {
        r.len() - p - 1
    }
}

/// `n` zeros.
pub open spec fn zeros(n: int) -> Seq<char> {
    Seq::new(n as nat, |i: int| '0')
}

/// The numeral `t` written with `places` decimals, by adding zeros (and the
/// point, if `t` has none).
pub open spec fn padded(t: Seq<char>, places: int) -> Seq<char> {
    let have = decimals(t);
    if places <= have {
        t
    } else if have == 0 {
        t + seq!['.'] + zeros(places)
    } else {
        t + zeros(places - have)
    }
}

/// Text without separators is not changed by stripping them.
pub proof fn lemma_strip_fixed(s: Seq<char>)
    requires
        forall|i: int| 0 <= i < s.len() ==> s[i] != ',',
    ensures
        without_separators(s) == s,
    decreases s.len(),
{
    reveal(Seq::filter);
    if s.len() > 0 {
        lemma_strip_fixed(s.drop_last());
        assert(s.drop_last().push(s.last()) =~= s);
    }
}

/// Stripped text holds no separator.
pub proof fn lemma_stripped_has_none(s: Seq<char>)
    ensures
        forall|i: int|
            0 <= i < without_separators(s).len() ==> (#[trigger] without_separators(s)[i]) != ',',
    decreases s.len(),
{
    reveal(Seq::filter);
    if s.len() > 0 {
        lemma_stripped_has_none(s.drop_last());
    }
}

/// Stripping the separators twice is the same as stripping them once.
pub proof fn lemma_strip_idempotent(s: Seq<char>)
    ensures
        without_separators(without_separators(s)) == without_separators(s),
{
    lemma_stripped_has_none(s);
    lemma_strip_fixed(without_separators(s));
}

/// Stripping the separators undoes the grouping.
pub proof fn lemma_strip_group(d: Seq<char>)
    requires
        forall|i: int| 0 <= i < d.len() ==> d[i] != ',',
    ensures
        without_separators(group_digits(d)) == d,
    decreases d.len(),
{
    if d.len() <= 3 {
        lemma_strip_fixed(d);
    } else {
        let head = d.take(d.len() - 3);
        let tail = d.skip(d.len() - 3);
        lemma_strip_group(head);
        lemma_strip_fixed(tail);
        Seq::filter_distributes_over_add(group_digits(head), seq![','], not_separator());
        Seq::filter_distributes_over_add(group_digits(head) + seq![','], tail, not_separator());
        assert(without_separators(seq![',']) =~= Seq::<char>::empty()) by {
            reveal_with_fuel(Seq::filter, 2);
            assert(seq![','].drop_last() =~= Seq::<char>::empty());
        }
        assert(head + Seq::<char>::empty() + tail =~= d);
    }
}

/// Stripping the separators undoes the grouping of an integer part.
pub proof fn lemma_strip_group_integer(s: Seq<char>)
    requires
        forall|i: int| 0 <= i < s.len() ==> s[i] != ',',
    ensures
        without_separators(group_integer(s)) == s,
{
    if is_digits(s) {
        lemma_strip_group(s);
    } else if s.len() > 1 && s[0] == '-' && is_digits(s.skip(1)) {
        lemma_strip_group(s.skip(1));
        lemma_strip_fixed(seq!['-']);
        Seq::filter_distributes_over_add(seq!['-'], group_digits(s.skip(1)), not_separator());
        assert(seq!['-'] + s.skip(1) =~= s);
    } else {
        lemma_strip_fixed(s);
    }
}

/// What trimming takes away are zeros, and it leaves no zero at the end.
pub proof fn lemma_trim_zeros(s: Seq<char>)
    ensures
        trim_trailing_zeros(s).len() <= s.len(),
        trim_trailing_zeros(s) + zeros(s.len() - trim_trailing_zeros(s).len()) == s,
        trim_trailing_zeros(s).len() > 0 ==> trim_trailing_zeros(s).last() != '0',
    decreases s.len(),
{
    if s.len() > 0 && s.last() == '0' {
        lemma_trim_zeros(s.drop_last());
        let t = trim_trailing_zeros(s);
        assert(t + zeros(s.len() - t.len()) =~= (t + zeros(s.len() - 1 - t.len())).push('0'));
        assert(s.drop_last().push('0') =~= s);
    } else {
        assert(s + zeros(0) =~= s);
    }
}

/// Formatting a numeral, stripping the separators and writing the result
/// with the decimals of the numeral again gives the numeral back: the
/// displayed value stands for the same number at the same precision.  So
/// formatting what was read back displays the same value again.
pub proof fn lemma_format_round_trip(r: Seq<char>)
    requires
        is_numeral(r),
    ensures
        padded(without_separators(formatted(r)), decimals(r)) == r,
        formatted(padded(without_separators(formatted(r)), decimals(r))) == formatted(r),
{
    let body = unsigned(r);
    let pb = first_index(body, '.');
    lemma_first_index(body, '.');
    lemma_first_index(r, '.');
    let p = first_index(r, '.');
    let signed = r.len() > 0 && r[0] == '-';
    // Where the point is in r, from where it is in the body.
    if signed {
        assert(is_first_index(r, '.', pb + 1)) by {
            assert forall|j: int| 0 <= j < pb + 1 implies r[j] != '.' by {
                if j > 0 {
                    assert(r[j] == body[j - 1]);
                }
            }
            if pb < body.len() {
                assert(r[pb + 1] == body[pb]);
            }
        }
        lemma_first_index_unique(r, '.', pb + 1);
    }
    let whole = r.take(p);
    let digits = body.take(pb);
    assert(is_digits(digits));
    if signed {
        assert(whole.skip(1) =~= digits);
        assert(!is_digit(whole[0]));
    } else {
        assert(whole =~= digits);
    }
    assert forall|i: int| 0 <= i < whole.len() implies whole[i] != ',' && whole[i] != '.' by {
        if signed {
            if i > 0 {
                assert(whole[i] == digits[i - 1]);
                assert(is_digit(digits[i - 1]));
            }
        } else {
            assert(is_digit(digits[i]));
        }
    }
    lemma_strip_group_integer(whole);
    let grouped = group_integer(whole);
    if p == r.len() {
        assert(whole =~= r);
        assert(formatted(r) == grouped);
    } else {
        let fraction = r.skip(p + 1);
        assert(fraction =~= body.skip(pb + 1));
        assert(is_digits(fraction));
        let kept = trim_trailing_zeros(fraction);
        lemma_trim_zeros(fraction);
        assert forall|i: int| 0 <= i < kept.len() implies kept[i] != ',' && kept[i] != '.' by {
            assert(kept[i] == (kept + zeros(fraction.len() - kept.len()))[i]);
            assert(is_digit(fraction[i]));
        }
        if kept.len() == 0 {
            assert(formatted(r) == grouped);
            let t = without_separators(formatted(r));
            assert(t == whole);
            assert(is_first_index(t, '.', t.len() as int));
            lemma_first_index_unique(t, '.', t.len() as int);
            assert(decimals(t) == 0);
            assert(fraction =~= zeros(fraction.len() as int));
            assert(decimals(r) == fraction.len());
            assert(whole + seq!['.'] + fraction =~= r);
        } else {
            assert(formatted(r) == grouped + seq!['.'] + kept);
            lemma_strip_fixed(seq!['.']);
            lemma_strip_fixed(kept);
            Seq::filter_distributes_over_add(grouped, seq!['.'], not_separator());
            Seq::filter_distributes_over_add(grouped + seq!['.'], kept, not_separator());
            let t = without_separators(formatted(r));
            assert(t == whole + seq!['.'] + kept);
            assert(is_first_index(t, '.', whole.len() as int)) by {
                assert(t[whole.len() as int] == '.');
                assert forall|j: int| 0 <= j < whole.len() implies t[j] != '.' by {
                    assert(t[j] == whole[j]);
                }
            }
            lemma_first_index_unique(t, '.', whole.len() as int);
            assert(decimals(t) == kept.len());
            assert(decimals(r) == fraction.len());
            assert(whole + seq!['.'] + fraction =~= r);
            assert(whole + seq!['.'] + kept + zeros(fraction.len() - kept.len()) =~= whole
                + seq!['.'] + (kept + zeros(fraction.len() - kept.len())));
        }
    }
}

/// A text without the sign that may start it.
pub open spec fn without_sign(s: Seq<char>) -> Seq<char> {
    if s.len() > 0 && (s[0] == '+' || s[0] == '-') {
        s.skip(1)
    } else {
        s
    }
}

/// Every character is a digit; there may be none.
pub open spec fn all_digit(s: Seq<char>) -> bool {
    forall|i: int| 0 <= i < s.len() ==> is_digit(#[trigger] s[i])
}

/// The text names a value that is no finite number: `inf`, `infinity` or
/// `nan`, in lower case.
pub open spec fn is_special(s: Seq<char>) -> bool {
    ||| s == seq!['i', 'n', 'f']
    ||| s == seq!['i', 'n', 'f', 'i', 'n', 'i', 't', 'y']
    ||| s == seq!['n', 'a', 'n']
}

/// Digits with at most one point among them, and at least one digit.
pub open spec fn is_mantissa(s: Seq<char>) -> bool {
    let p = first_index(s, '.');
    if p >= s.len() {
        is_digits(s)
    } else {
        all_digit(s.take(p)) && all_digit(s.skip(p + 1)) && s.len() > 1
    }
}

/// The text reads as a number: an optional sign, and then either `inf`,
/// `infinity` or `nan`, or digits with at most one point among them and at
/// least one digit, which an exponent may follow: the letter `e`, an
/// optional sign, and digits.  Letters count in either case.
pub open spec fn reads_as_number(s: Seq<char>) -> bool {
    let body = lowered(without_sign(s));
    let x = first_index(body, 'e');
    ||| is_special(body)
    ||| (is_mantissa(body.take(x)) && (x >= body.len() || is_digits(
        without_sign(body.skip(x + 1)),
    )))
}

/// Whether every character of a text is a digit.
pub fn only_digits(v: &Vec<char>) -> (r: bool)
    ensures
        r == all_digit(v@),
{
    let mut i: usize = 0;
    while i < v.len()
        invariant
            i <= v.len(),
            forall|j: int| 0 <= j < i ==> is_digit(#[trigger] v@[j]),
        decreases v.len() - i,
    {
        if !is_digit_char(v[i]) {
            return false;
        }
        i += 1;
    }
    true
}

/// A text without the sign that may start it.
pub fn strip_sign(v: &Vec<char>) -> (r: Vec<char>)
    ensures
        r@ == without_sign(v@),
{
    if v.len() > 0 && (v[0] == '+' || v[0] == '-') {
        let r = copy_range(v, 1, v.len());
        assert(r@ == v@.skip(1));
        r
    } else {
        let r = copy_range(v, 0, v.len());
        assert(r@ == v@);
        r
    }
}

/// Whether a text is one of `inf`, `infinity` and `nan`.
pub fn is_special_text(v: &Vec<char>) -> (r: bool)
    ensures
        r == is_special(v@),
{
    let inf: Vec<char> = vec!['i', 'n', 'f'];
    let infinity: Vec<char> = vec!['i', 'n', 'f', 'i', 'n', 'i', 't', 'y'];
    let nan: Vec<char> = vec!['n', 'a', 'n'];
    assert(inf@ =~= seq!['i', 'n', 'f']);
    assert(infinity@ =~= seq!['i', 'n', 'f', 'i', 'n', 'i', 't', 'y']);
    assert(nan@ =~= seq!['n', 'a', 'n']);
    same_chars(v, &inf) || same_chars(v, &infinity) || same_chars(v, &nan)
}

/// Whether a text is digits with at most one point and at least one digit.
pub fn is_mantissa_text(v: &Vec<char>) -> (r: bool)
    ensures
        r == is_mantissa(v@),
{
    let p = find_char(v, '.');
    if p >= v.len() {
        return all_digits(v);
    }
    let whole = copy_range(v, 0, p);
    assert(whole@ == v@.take(p as int));
    let fraction = copy_range(v, p + 1, v.len());
    assert(fraction@ == v@.skip(p + 1));
    only_digits(&whole) && only_digits(&fraction) && v.len() > 1
}

/// Whether a text reads as a number.
pub fn reads_as_number_text(v: &Vec<char>) -> (r: bool)
    ensures
        r == reads_as_number(v@),
{
    let body = lower_text(&strip_sign(v));
    if is_special_text(&body) {
        return true;
    }
    let x = find_char(&body, 'e');
    let mantissa = copy_range(&body, 0, x);
    assert(mantissa@ == body@.take(x as int));
    if !is_mantissa_text(&mantissa) {
        return false;
    }
    if x >= body.len() {
        return true;
    }
    let exponent = copy_range(&body, x + 1, body.len());
    assert(exponent@ == body@.skip(x + 1));
    all_digits(&strip_sign(&exponent))
}

/// A decimal numeral reads as a number: what the formatter displays for a
/// rendering is counted where numbers are counted.
pub proof fn lemma_numeral_reads_as_number(s: Seq<char>)
    requires
        is_numeral(s),
    ensures
        reads_as_number(s),
{
    let u = unsigned(s);
    let p = first_index(u, '.');
    lemma_first_index(u, '.');
    assert(is_digits(u.take(p)));
    assert(u.len() > 0) by {
        assert(u.take(p).len() > 0);
    }
    assert(is_digit(u.take(p)[0]));
    assert(u.take(p)[0] == u[0]);
    assert(u[0] != '+');
    assert(without_sign(s) == u) by {
        if s.len() > 0 && s[0] == '-' {
        } else {
            assert(u == s);
            assert(s[0] != '-' && s[0] != '+');
        }
    }
    assert forall|i: int| 0 <= i < u.len() implies is_digit(#[trigger] u[i]) || u[i] == '.' by {
        if i < p {
            assert(u.take(p)[i] == u[i]);
        } else if i > p {
            assert(u.skip(p + 1)[i - p - 1] == u[i]);
        }
    }
    let body = lowered(u);
    assert(body =~= u) by {
        assert forall|i: int| 0 <= i < u.len() implies lower(u[i]) == u[i] by {
            assert(is_digit(u[i]) || u[i] == '.');
        }
    }
    assert(is_first_index(body, 'e', body.len() as int)) by {
        assert forall|j: int| 0 <= j < body.len() implies body[j] != 'e' by {
            assert(is_digit(u[j]) || u[j] == '.');
        }
    }
    lemma_first_index_unique(body, 'e', body.len() as int);
    assert(body.take(body.len() as int) =~= body);
    assert(is_mantissa(u)) by {
        if p < u.len() {
            assert(is_digits(u.skip(p + 1)));
            assert(u.len() > 1);
        } else {
            assert(u.take(p) =~= u);
        }
    }
}

/// Whether a text is a decimal numeral.
pub fn is_numeral_text(v: &Vec<char>) -> (r: bool)
    ensures
        r == is_numeral(v@),
{
    let start: usize = if v.len() > 0 && v[0] == '-' {
        1
    } else {
        0
    };
    let body = copy_range(v, start, v.len());
    assert(body@ == unsigned(v@));
    let p = find_char(&body, '.');
    let whole = copy_range(&body, 0, p);
    assert(whole@ == body@.take(p as int));
    if !all_digits(&whole) {
        return false;
    }
    if p == body.len() {
        return true;
    }
    let fraction = copy_range(&body, p + 1, body.len());
    assert(fraction@ == body@.skip(p + 1));
    all_digits(&fraction)
}

} // verus!
