use vstd::prelude::*;

verus! {

/// The pieces of `s` between occurrences of `sep`, as `str::split` gives
/// them: one more piece than there are separators.
pub open spec fn split_spec(s: Seq<char>, sep: char) -> Seq<Seq<char>>
    decreases s.len(),
{
    if s.len() == 0 {
        seq![Seq::empty()]
    } else {
        let f = split_spec(s.drop_last(), sep);
        if s.last() == sep {
            f.push(Seq::empty())
        } else {
            f.update(f.len() - 1, f.last().push(s.last()))
        }
    }
}

/// The views of a vector of strings.
pub open spec fn views(v: Seq<String>) -> Seq<Seq<char>> {
    v.map_values(|x: String| x@)
}

/// The split of a text has at least one piece.
proof fn lemma_split_nonempty(s: Seq<char>, sep: char)
    ensures
        split_spec(s, sep).len() >= 1,
    decreases s.len(),
{
    if s.len() > 0 {
        lemma_split_nonempty(s.drop_last(), sep);
    }
}

/// A text without the separator is a single piece.
proof fn lemma_split_no_sep(s: Seq<char>, sep: char)
    requires
        forall|k: int| 0 <= k < s.len() ==> s[k] != sep,
    ensures
        split_spec(s, sep) == seq![s],
    decreases s.len(),
{
    if s.len() > 0 {
        lemma_split_no_sep(s.drop_last(), sep);
        assert(s.drop_last().push(s.last()) =~= s);
        assert(seq![s.drop_last()].update(0, s.drop_last().push(s.last())) =~= seq![s]);
    } else {
        assert(s =~= Seq::<char>::empty());
    }
}

/// Splitting at a separator splits each side on its own.
proof fn lemma_split_concat(x: Seq<char>, b: Seq<char>, sep: char)
    ensures
        split_spec(x + seq![sep] + b, sep) == split_spec(x, sep) + split_spec(b, sep),
    decreases b.len(),
{
    let y = x + seq![sep] + b;
    let sx = split_spec(x, sep);
    if b.len() == 0 {
        assert(y.drop_last() =~= x);
        assert(b =~= Seq::<char>::empty());
        assert(sx.push(Seq::empty()) =~= sx + seq![Seq::<char>::empty()]);
    } else {
        let bd = b.drop_last();
        lemma_split_concat(x, bd, sep);
        lemma_split_nonempty(bd, sep);
        assert(y.drop_last() =~= x + seq![sep] + bd);
        assert(y.last() == b.last());
        let sb = split_spec(bd, sep);
        if b.last() == sep {
            assert((sx + sb).push(Seq::empty()) =~= sx + sb.push(Seq::empty()));
        } else {
            let c = b.last();
            assert((sx + sb).last() == sb.last());
            assert((sx + sb).update((sx + sb).len() - 1, sb.last().push(c)) =~= sx + sb.update(
                sb.len() - 1,
                sb.last().push(c),
            ));
        }
    }
}

/// Index of the first `c` in `s`, or its length where it has none.
fn first_of(s: &str, c: char) -> (r: usize)
    ensures
        r <= s@.len(),
        forall|k: int| 0 <= k < r ==> s@[k] != c,
        r < s@.len() ==> s@[r as int] == c,
{
    let n = s.unicode_len();
    let mut p: usize = 0;
    while p < n && s.get_char(p) != c
        invariant
            n == s@.len(),
            p <= n,
            forall|k: int| 0 <= k < p ==> s@[k] != c,
        decreases n - p,
    {
        p += 1;
    }
    p
}

/// Splits text at each occurrence of `sep`.
pub fn split_text(s: &str, sep: char) -> (r: Vec<String>)
    ensures
        views(r@) == split_spec(s@, sep),
{
    let mut rest: &str = s;
    let mut done: Vec<String> = Vec::new();
    let mut n = rest.unicode_len();
    let mut p = first_of(rest, sep);
    assert(views(done@) + split_spec(rest@, sep) =~= split_spec(s@, sep));
    while p < n
        invariant
            n == rest@.len(),
            p <= n,
            forall|k: int| 0 <= k < p ==> rest@[k] != sep,
            p < n ==> rest@[p as int] == sep,
            split_spec(s@, sep) == views(done@) + split_spec(rest@, sep),
        decreases rest@.len(),
    {
        let ghost r = rest@;
        let ghost prev = views(done@);
        proof {
            lemma_split_no_sep(r.take(p as int), sep);
            lemma_split_concat(r.take(p as int), r.skip(p + 1), sep);
            assert(r.take(p as int) + seq![sep] + r.skip(p + 1) =~= r);
        }
        let piece = rest.substring_char(0, p);
        done.push(String::from_str(piece));
        rest = rest.substring_char(p + 1, n);
        assert(piece@ =~= r.take(p as int));
        assert(rest@ =~= r.skip(p + 1));
        assert(views(done@) =~= prev.push(r.take(p as int)));
        assert(prev + (seq![r.take(p as int)] + split_spec(rest@, sep)) =~= views(done@) + split_spec(
            rest@,
            sep,
        ));
        n = rest.unicode_len();
        p = first_of(rest, sep);
    }
    proof {
        lemma_split_no_sep(rest@, sep);
    }
    let ghost prev = views(done@);
    done.push(String::from_str(rest));
    assert(views(done@) =~= prev + seq![rest@]);
    done
}

pub open spec fn is_digit(c: char) -> bool {
    '0' <= c <= '9'
}

pub open spec fn all_digits(s: Seq<char>) -> bool {
    forall|i: int| 0 <= i < s.len() ==> is_digit(#[trigger] s[i])
}

/// The number that a string of decimal digits writes.
pub open spec fn digits_value(s: Seq<char>) -> int
    decreases s.len(),
{
    if s.len() == 0 {
        0
    } else {
        digits_value(s.drop_last()) * 10 + (s.last() as int - '0' as int)
    }
}

/// `s` writes a number of at most `limit` in decimal digits, with no sign.
pub open spec fn is_number_upto(s: Seq<char>, limit: int) -> bool {
    s.len() > 0 && all_digits(s) && digits_value(s) <= limit
}

/// The number that `s` writes in decimal digits, where it is one of at
/// most `limit`.
pub fn parse_digits(s: &str, limit: u32) -> (r: Option<u32>)
    ensures
        r is Some <==> is_number_upto(s@, limit as int),
        r matches Some(v) ==> v == digits_value(s@),
{
    let n = s.unicode_len();
    if n == 0 {
        return None;
    }
    let cap: u64 = limit as u64 + 1;
    let mut v: u64 = 0;
    let mut i: usize = 0;
    assert(s@.take(0) =~= Seq::<char>::empty());
    while i < n
        invariant
            n == s@.len(),
            cap == limit + 1,
            i <= n,
            all_digits(s@.take(i as int)),
            digits_value(s@.take(i as int)) >= 0,
            v == if digits_value(s@.take(i as int)) < cap {
                digits_value(s@.take(i as int))
            } else {
                cap as int
            },
        decreases n - i,
    {
        let c = s.get_char(i);
        if !('0' <= c && c <= '9') {
            assert(!all_digits(s@));
            return None;
        }
        let d = (c as u32 - '0' as u32) as u64;
        let ghost before = digits_value(s@.take(i as int));
        assert(s@.take(i + 1).drop_last() =~= s@.take(i as int));
        assert(digits_value(s@.take(i + 1)) == before * 10 + d);
        assert(all_digits(s@.take(i + 1))) by {
            assert forall|k: int| 0 <= k < i + 1 implies is_digit(#[trigger] s@.take(i + 1)[k]) by {
                if k < i {
                    assert(s@.take(i + 1)[k] == s@.take(i as int)[k]);
                }
            }
        }
        let next = v * 10 + d;
        v = if next < cap { next } else { cap };
        i += 1;
    }
    assert(s@.take(n as int) =~= s@);
    if v < cap {
        Some(v as u32)
    } else {
        None
    }
}

/// Largest whole part that `parse_hundredths` accepts, so that the value in
/// hundredths fits a `u32`.
pub const MAX_WHOLE: u32 = 42_949_671;

/// `s` has its decimal point at `p`, digits alone on either side of it, and
/// at least one digit in all.
pub open spec fn point_at(s: Seq<char>, p: int) -> bool {
    &&& 0 <= p < s.len()
    &&& s[p] == '.'
    &&& all_digits(s.take(p))
    &&& all_digits(s.skip(p + 1))
    &&& s.len() >= 2
}

/// `s` writes an unsigned decimal number such as `3`, `2.2`, `0.785`, `2.`
/// or `.5`.
pub open spec fn is_decimal(s: Seq<char>) -> bool {
    (s.len() > 0 && all_digits(s)) || exists|p: int| point_at(s, p)
}

/// The digits before the decimal point, or all of `s` where it has none.
pub open spec fn whole_part(s: Seq<char>) -> Seq<char> {
    if exists|p: int| point_at(s, p) {
        s.take(choose|p: int| point_at(s, p))
    } else {
        s
    }
}

/// The digits after the decimal point, if any.
pub open spec fn fraction_part(s: Seq<char>) -> Seq<char> {
    if exists|p: int| point_at(s, p) {
        s.skip((choose|p: int| point_at(s, p)) + 1)
    } else {
        Seq::empty()
    }
}

/// The first two decimals as hundredths; later decimals are dropped.
pub open spec fn fraction_hundredths(f: Seq<char>) -> int {
    if f.len() == 0 {
        0
    } else if f.len() == 1 {
        digits_value(f) * 10
    } else {
        digits_value(f.take(2))
    }
}

/// The value of a decimal number in hundredths, rounded toward zero, where
/// its whole part is at most `MAX_WHOLE`.
pub open spec fn spec_hundredths(s: Seq<char>) -> Option<int> {
    if is_decimal(s) && digits_value(whole_part(s)) <= MAX_WHOLE {
        Some(digits_value(whole_part(s)) * 100 + fraction_hundredths(fraction_part(s)))
    } else {
        None
    }
}

/// Where `s` has a decimal point, it is the first point.
proof fn lemma_point_first(s: Seq<char>, r: int)
    requires
        0 <= r <= s.len(),
        forall|k: int| 0 <= k < r ==> s[k] != '.',
        r < s.len() ==> s[r] == '.',
    ensures
        (exists|p: int| point_at(s, p)) ==> r < s.len() && point_at(s, r) && (choose|p: int|
            point_at(s, p)) == r,
        r < s.len() ==> !all_digits(s),
{
    if r < s.len() {
        assert(!is_digit(s[r]));
    }
    if exists|p: int| point_at(s, p) {
        let q = choose|p: int| point_at(s, p);
        if q < r {
            assert(s[q] != '.');
        } else if q > r {
            assert(s.take(q)[r] == '.');
            assert(!is_digit(s.take(q)[r]));
        }
    }
}

/// Whether every character of `s` is a decimal digit.
fn all_digit_chars(s: &str) -> (r: bool)
    ensures
        r == all_digits(s@),
{
    let n = s.unicode_len();
    let mut i: usize = 0;
    while i < n
        invariant
            n == s@.len(),
            i <= n,
            forall|k: int| 0 <= k < i ==> is_digit(#[trigger] s@[k]),
        decreases n - i,
    {
        let c = s.get_char(i);
        if !('0' <= c && c <= '9') {
            return false;
        }
        i += 1;
    }
    true
}

/// Whether `s` writes an unsigned decimal number.
pub fn is_decimal_text(s: &str) -> (r: bool)
    ensures
        r == is_decimal(s@),
{
    let n = s.unicode_len();
    let p = first_of(s, '.');
    proof {
        lemma_point_first(s@, p as int);
    }
    if p == n {
        n > 0 && all_digit_chars(s)
    } else {
        let whole = s.substring_char(0, p);
        let frac = s.substring_char(p + 1, n);
        assert(whole@ =~= s@.take(p as int));
        assert(frac@ =~= s@.skip(p + 1));
        let ok = n >= 2 && all_digit_chars(whole) && all_digit_chars(frac);
        if ok {
            assert(point_at(s@, p as int));
        }
        ok
    }
}

proof fn lemma_short_digits(f: Seq<char>)
    requires
        all_digits(f),
        1 <= f.len() <= 2,
    ensures
        digits_value(f) <= if f.len() == 1 {
            9int
        } else {
            99int
        },
{
    let g = f.drop_last();
    assert(is_digit(f[f.len() - 1]));
    assert(digits_value(f) == digits_value(g) * 10 + (f.last() as int - '0' as int));
    if f.len() == 2 {
        assert(is_digit(f[0]));
        assert(g.last() == f[0]);
        assert(digits_value(g.drop_last()) == 0);
        assert(digits_value(g) == digits_value(g.drop_last()) * 10 + (g.last() as int - '0' as int));
    } else {
        assert(digits_value(g) == 0);
    }
}

/// The digits of a fraction, as hundredths.
fn parse_fraction(f: &str) -> (r: u32)
    requires
        all_digits(f@),
    ensures
        r == fraction_hundredths(f@),
        r <= 99,
{
    let n = f.unicode_len();
    if n == 0 {
        0
    } else if n == 1 {
        proof {
            lemma_short_digits(f@);
        }
        match parse_digits(f, 9) {
            Some(v) => v * 10,
            None => 0,
        }
    } else {
        let two = f.substring_char(0, 2);
        assert(two@ =~= f@.take(2));
        assert(all_digits(two@)) by {
            assert forall|k: int| 0 <= k < 2 implies is_digit(#[trigger] two@[k]) by {
                assert(two@[k] == f@[k]);
            }
        }
        proof {
            lemma_short_digits(two@);
        }
        match parse_digits(two, 99) {
            Some(v) => v,
            None => 0,
        }
    }
}

/// The value in hundredths of an unsigned decimal number such as `2.2`,
/// `0.79` or `3`, rounded toward zero; `None` for any other text, and where
/// the whole part exceeds `MAX_WHOLE`.
pub fn parse_hundredths(s: &str) -> (r: Option<u32>)
    ensures
        as_int_opt(r) == spec_hundredths(s@),
{
    if !is_decimal_text(s) {
        return None;
    }
    let n = s.unicode_len();
    let p = first_of(s, '.');
    proof {
        lemma_point_first(s@, p as int);
    }
    if p == n {
        assert(whole_part(s@) == s@);
        return match parse_digits(s, MAX_WHOLE) {
            Some(w) => Some(w * 100),
            None => None,
        };
    }
    let whole = s.substring_char(0, p);
    let frac = s.substring_char(p + 1, n);
    assert(whole@ =~= whole_part(s@));
    assert(frac@ =~= fraction_part(s@));
    let w: u32 = if p == 0 {
        assert(whole@.len() == 0);
        assert(digits_value(whole@) == 0);
        0
    } else {
        match parse_digits(whole, MAX_WHOLE) {
            Some(v) => v,
            None => return None,
        }
    };
    let f = parse_fraction(frac);
    Some(w * 100 + f)
}

/// The widened value of a number.
pub open spec fn as_int_opt(o: Option<u32>) -> Option<int> {
    match o {
        Some(v) => Some(v as int),
        None => None,
    }
}

} // verus!
