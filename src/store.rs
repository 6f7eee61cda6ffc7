//! The saved form of a history: one solve per line, in seconds with a
//! decimal point, such as `12.340`. Averages are not saved; they are
//! recomputed when a history is loaded.
use vstd::prelude::*;

verus! {

/// The decimal point.
pub const DOT: u8 = 46;

pub open spec fn is_digit(b: u8) -> bool {
    48 <= b <= 57
}

pub open spec fn all_digits(s: Seq<u8>) -> bool {
    forall|i: int| 0 <= i < s.len() ==> is_digit(#[trigger] s[i])
}

/// The number that a run of decimal digits writes.
pub open spec fn digits_value(s: Seq<u8>) -> int
    decreases s.len(),
{
    if s.len() == 0 {
        0
    } else {
        digits_value(s.drop_last()) * 10 + (s.last() - 48)
    }
}

/// Milliseconds written by the digits after a decimal point: the first
/// three count, later ones are dropped.
pub open spec fn frac_ms(f: Seq<u8>) -> int {
    if f.len() >= 3 {
        digits_value(f.subrange(0, 3))
    } else if f.len() == 2 {
        digits_value(f) * 10
    } else {
        digits_value(f) * 100
    }
}

/// `l` is digits, a point at `k`, and digits again.
pub open spec fn dot_at(l: Seq<u8>, k: int) -> bool {
    &&& 1 <= k
    &&& k + 1 < l.len()
    &&& l[k] == DOT
    &&& all_digits(l.subrange(0, k))
    &&& all_digits(l.subrange(k + 1, l.len() as int))
}

/// The milliseconds that one line writes, if it is a well-formed time that
/// fits in a `u64`.
pub open spec fn line_time(l: Seq<u8>) -> Option<u64> {
    let v = if l.len() >= 1 && all_digits(l) {
        Some(digits_value(l) * 1000)
    } else if exists|k: int| dot_at(l, k) {
        let k = choose|k: int| dot_at(l, k);
        Some(digits_value(l.subrange(0, k)) * 1000 + frac_ms(l.subrange(k + 1, l.len() as int)))
    } else {
        None
    };
    match v {
        Some(x) => if x <= u64::MAX {
            Some(x as u64)
        } else {
            None
        },
        None => None,
    }
}

/// The times written by a sequence of lines, empty lines skipped, or `None`
/// if any other line is not a well-formed time.
pub open spec fn parsed_times(lines: Seq<Seq<u8>>) -> Option<Seq<u64>>
    decreases lines.len(),
{
    if lines.len() == 0 {
        Some(Seq::empty())
    } else {
        match parsed_times(lines.drop_last()) {
            None => None,
            Some(ts) => if lines.last().len() == 0 {
                Some(ts)
            } else {
                match line_time(lines.last()) {
                    Some(t) => Some(ts.push(t)),
                    None => None,
                }
            },
        }
    }
}

/// The lines of bytes that a vector of byte vectors holds.
pub open spec fn lines_view(lines: Seq<Vec<u8>>) -> Seq<Seq<u8>> {
    lines.map_values(|l: Vec<u8>| l@)
}

/// A saved history could not be read.
#[derive(Clone, Copy, Debug, PartialEq, Eq, Structural)]
pub enum LoadError {
    /// A line is not a non-negative decimal number of seconds.
    MalformedRecord,
}

proof fn lemma_digits_monotone(s: Seq<u8>, i: int, j: int)
    requires
        all_digits(s),
        0 <= i <= j <= s.len(),
    ensures
        digits_value(s.subrange(0, i)) <= digits_value(s.subrange(0, j)),
        digits_value(s.subrange(0, j)) >= 0,
    decreases j - i,
{
    if i < j {
        lemma_digits_monotone(s, i, j - 1);
        let t = s.subrange(0, j);
        assert(t.drop_last() =~= s.subrange(0, j - 1));
        assert(is_digit(s[j - 1]));
    } else {
        lemma_digits_nonneg(s.subrange(0, j));
    }
}

proof fn lemma_digits_nonneg(s: Seq<u8>)
    requires
        all_digits(s),
    ensures
        digits_value(s) >= 0,
    decreases s.len(),
{
    if s.len() > 0 {
        assert(all_digits(s.drop_last()));
        lemma_digits_nonneg(s.drop_last());
        assert(is_digit(s[s.len() - 1]));
    }
}

/// The value of the digits `l[from..to]`, or `None` if one of them is not a
/// digit or the value exceeds a `u64`.
fn digits_in(l: &Vec<u8>, from: usize, to: usize) -> (r: Option<u64>)
    requires
        from <= to <= l.len(),
    ensures
        match r {
            Some(v) => all_digits(l@.subrange(from as int, to as int)) && v == digits_value(
                l@.subrange(from as int, to as int),
            ),
            None => !all_digits(l@.subrange(from as int, to as int)) || digits_value(
                l@.subrange(from as int, to as int),
            ) > u64::MAX,
        },
{
    let ghost s = l@.subrange(from as int, to as int);
    let mut acc: u64 = 0;
    let mut i: usize = from;
    while i < to
        invariant
            from <= i <= to <= l.len(),
            s == l@.subrange(from as int, to as int),
            all_digits(s.subrange(0, i - from)),
            acc == digits_value(s.subrange(0, i - from)),
        decreases to - i,
    {
        let b = l[i];
        let ghost p = s.subrange(0, i - from + 1);
        proof {
            assert(p.drop_last() =~= s.subrange(0, i - from));
            assert(p.last() == b);
        }
        if b < 48 || b > 57 {
            assert(!is_digit(s[i - from]));
            return None;
        }
        let next: u128 = acc as u128 * 10 + (b - 48) as u128;
        if next > u64::MAX as u128 {
            proof {
                assert(all_digits(p));
                if all_digits(s) {
                    lemma_digits_monotone(s, i - from + 1, s.len() as int);
                    assert(s.subrange(0, s.len() as int) =~= s);
                }
            }
            return None;
        }
        acc = next as u64;
        i = i + 1;
        proof {
            assert(all_digits(s.subrange(0, i - from))) by {
                assert(s.subrange(0, i - from) =~= p);
            }
        }
    }
    assert(s.subrange(0, i - from) =~= s);
    Some(acc)
}

proof fn lemma_first_dot(l: Seq<u8>, k: int, k2: int)
    requires
        0 <= k < l.len(),
        l[k] == DOT,
        forall|j: int| 0 <= j < k ==> l[j] != DOT,
        dot_at(l, k2),
    ensures
        k2 == k,
{
    if k2 > k {
        assert(l.subrange(0, k2)[k] == l[k]);
        assert(!is_digit(l.subrange(0, k2)[k]));
    }
}

/// Milliseconds written by the one to three digits `l[from..to]`.
fn small_frac(l: &Vec<u8>, from: usize, to: usize) -> (r: u64)
    requires
        from < to <= l.len(),
        to - from <= 3,
        all_digits(l@.subrange(from as int, to as int)),
    ensures
        r == frac_ms(l@.subrange(from as int, to as int)),
{
    let ghost f = l@.subrange(from as int, to as int);
    proof {
        reveal_with_fuel(digits_value, 4);
        assert(is_digit(f[0]));
        if f.len() >= 2 {
            assert(is_digit(f[1]));
        }
        if f.len() >= 3 {
            assert(is_digit(f[2]));
            assert(f.subrange(0, 3) =~= f);
            assert(f.drop_last().drop_last() =~= seq![f[0]]);
        }
        if f.len() == 2 {
            assert(f.drop_last() =~= seq![f[0]]);
        }
        assert(seq![f[0]].drop_last() =~= Seq::<u8>::empty());
    }
    let d0 = (l[from] - 48) as u64;
    if to - from == 1 {
        assert(f.drop_last() =~= Seq::<u8>::empty());
        return d0 * 100;
    }
    let d1 = (l[from + 1] - 48) as u64;
    if to - from == 2 {
        return d0 * 100 + d1 * 10;
    }
    let d2 = (l[from + 2] - 48) as u64;
    d0 * 100 + d1 * 10 + d2
}

/// Whether `l[from..to]` are all digits.
fn digits_only(l: &Vec<u8>, from: usize, to: usize) -> (r: bool)
    requires
        from <= to <= l.len(),
    ensures
        r == all_digits(l@.subrange(from as int, to as int)),
{
    let ghost s = l@.subrange(from as int, to as int);
    let mut i: usize = from;
    while i < to
        invariant
            from <= i <= to <= l.len(),
            s == l@.subrange(from as int, to as int),
            forall|j: int| 0 <= j < i - from ==> is_digit(#[trigger] s[j]),
        decreases to - i,
    {
        if l[i] < 48 || l[i] > 57 {
            assert(!is_digit(s[i - from]));
            return false;
        }
        i = i + 1;
    }
    true
}

/// Reads one line: a whole number of seconds, or seconds, a point and at
/// least one more digit, as milliseconds.
pub fn parse_line(l: &Vec<u8>) -> (r: Option<u64>)
    ensures
        r == line_time(l@),
{
    let n = l.len();
    let mut k: usize = 0;
    while k < n && l[k] != DOT
        invariant
            k <= n == l.len(),
            forall|j: int| 0 <= j < k ==> l@[j] != DOT,
        decreases n - k,
    {
        k = k + 1;
    }
    if k == n {
        assert(l@.subrange(0, n as int) =~= l@);
        assert(!exists|k2: int| dot_at(l@, k2));
        if n == 0 {
            return None;
        }
        return match digits_in(l, 0, n) {
            Some(a) => {
                if a as u128 * 1000 <= u64::MAX as u128 {
                    Some(a * 1000)
                } else {
                    None
                }
            },
            None => None,
        };
    }
    assert(!all_digits(l@)) by {
        assert(!is_digit(l@[k as int]));
    }
    proof {
        assert forall|k2: int| dot_at(l@, k2) implies k2 == k by {
            lemma_first_dot(l@, k as int, k2);
        }
    }
    if k == 0 || k + 1 >= n || !digits_only(l, k + 1, n) {
        return None;
    }
    let ghost f = l@.subrange(k as int + 1, n as int);
    let to = if n - (k + 1) > 3 {
        k + 4
    } else {
        n
    };
    proof {
        assert(l@.subrange(k as int + 1, to as int) =~= if f.len() >= 3 {
            f.subrange(0, 3)
        } else {
            f
        });
    }
    let frac = small_frac(l, k + 1, to);
    proof {
        if f.len() >= 3 {
            assert(f.subrange(0, 3).subrange(0, 3) =~= f.subrange(0, 3));
        }
    }
    match digits_in(l, 0, k) {
        Some(a) => {
            assert(dot_at(l@, k as int));
            let total: u128 = a as u128 * 1000 + frac as u128;
            if total <= u64::MAX as u128 {
                Some(total as u64)
            } else {
                None
            }
        },
        None => None,
    }
}

proof fn lemma_parsed_prefix_none(lines: Seq<Seq<u8>>, i: int, j: int)
    requires
        0 <= i <= j <= lines.len(),
        parsed_times(lines.subrange(0, i)).is_none(),
    ensures
        parsed_times(lines.subrange(0, j)).is_none(),
    decreases j - i,
{
    if i < j {
        lemma_parsed_prefix_none(lines, i, j - 1);
        assert(lines.subrange(0, j).drop_last() =~= lines.subrange(0, j - 1));
    }
}

/// Reads a saved history, all or nothing: the times of the non-empty lines
/// in order, or an error if any of them is malformed.
pub fn parse_history(lines: &Vec<Vec<u8>>) -> (r: Result<Vec<u64>, LoadError>)
    ensures
        match r {
            Ok(v) => parsed_times(lines_view(lines@)) == Some(v@),
            Err(e) => parsed_times(lines_view(lines@)).is_none() && e == LoadError::MalformedRecord,
        },
{
    let ghost all = lines_view(lines@);
    let mut out: Vec<u64> = Vec::new();
    let mut i: usize = 0;
    while i < lines.len()
        invariant
            i <= lines.len(),
            all == lines_view(lines@),
            parsed_times(all.subrange(0, i as int)) == Some(out@),
        decreases lines.len() - i,
    {
        proof {
            assert(all.subrange(0, i as int + 1).drop_last() =~= all.subrange(0, i as int));
            assert(all.subrange(0, i as int + 1).last() == lines@[i as int]@);
        }
        let line = &lines[i];
        if line.len() > 0 {
            match parse_line(line) {
                Some(t) => out.push(t),
                None => {
                    proof {
                        lemma_parsed_prefix_none(all, i as int + 1, all.len() as int);
                        assert(all.subrange(0, all.len() as int) =~= all);
                    }
                    return Err(LoadError::MalformedRecord);
                },
            }
        }
        i = i + 1;
    }
    assert(all.subrange(0, i as int) =~= all);
    Ok(out)
}

/// Decimal digits of `n`, most significant first, without leading zeros.
pub open spec fn decimal(n: nat) -> Seq<u8>
    decreases n,
{
    if n < 10 {
        seq![(48 + n) as u8]
    } else {
        decimal(n / 10).push((48 + n % 10) as u8)
    }
}

/// The saved line of a time: whole seconds, a point and three digits of
/// milliseconds.
pub open spec fn time_text(ms: u64) -> Seq<u8> {
    let r = ms % 1000;
    decimal((ms / 1000) as nat) + seq![DOT, (48 + r / 100) as u8, (48 + (r / 10) % 10) as u8, (48 + r % 10) as u8]
}

proof fn lemma_decimal_value(n: nat)
    ensures
        all_digits(decimal(n)),
        decimal(n).len() >= 1,
        digits_value(decimal(n)) == n,
    decreases n,
{
    if n >= 10 {
        lemma_decimal_value(n / 10);
        let d = decimal(n);
        assert(d.drop_last() =~= decimal(n / 10));
        assert(d.last() - 48 == n % 10);
        assert((n / 10) * 10 + n % 10 == n);
        assert forall|i: int| 0 <= i < d.len() implies is_digit(#[trigger] d[i]) by {
            if i < d.len() - 1 {
                assert(d[i] == decimal(n / 10)[i]);
            }
        }
    } else {
        let d = decimal(n);
        assert(d.drop_last() =~= Seq::<u8>::empty());
        assert(digits_value(d.drop_last()) == 0);
    }
}

fn push_decimal(out: &mut Vec<u8>, n: u64)
    ensures
        final(out)@ == old(out)@ + decimal(n as nat),
    decreases n,
{
    if n >= 10 {
        push_decimal(out, n / 10);
    }
    out.push(48 + (n % 10) as u8);
    assert(out@ =~= old(out)@ + decimal(n as nat));
}

/// The saved line of a time in milliseconds.
pub fn time_line(ms: u64) -> (r: Vec<u8>)
    ensures
        r@ == time_text(ms),
{
    let mut out: Vec<u8> = Vec::new();
    push_decimal(&mut out, ms / 1000);
    let r = ms % 1000;
    out.push(DOT);
    out.push(48 + (r / 100) as u8);
    out.push(48 + ((r / 10) % 10) as u8);
    out.push(48 + (r % 10) as u8);
    assert(out@ =~= time_text(ms));
    out
}

/// A saved line reads back as the time it was written from.
pub proof fn lemma_time_round_trip(ms: u64)
    ensures
        line_time(time_text(ms)) == Some(ms),
{
    let n = (ms / 1000) as nat;
    let r = ms % 1000;
    let d = decimal(n);
    let l = time_text(ms);
    lemma_decimal_value(n);
    let k = d.len() as int;
    assert(l.subrange(0, k) =~= d);
    let f = l.subrange(k + 1, l.len() as int);
    assert(f =~= seq![(48 + r / 100) as u8, (48 + (r / 10) % 10) as u8, (48 + r % 10) as u8]);
    assert(dot_at(l, k));
    assert(!all_digits(l)) by {
        assert(!is_digit(l[k]));
    }
    assert forall|k2: int| dot_at(l, k2) implies k2 == k by {
        if k2 < k {
            assert(l.subrange(0, k)[k2] == l[k2]);
        } else if k2 > k {
            assert(l.subrange(0, k2)[k] == l[k]);
            assert(!is_digit(l.subrange(0, k2)[k]));
        }
    }
    reveal_with_fuel(digits_value, 4);
    assert(f.subrange(0, 3) =~= f);
    assert(f.drop_last().drop_last().drop_last() =~= Seq::<u8>::empty());
    assert(frac_ms(f) == r);
}

/// The saved lines of a sequence of times.
pub open spec fn saved_text(times: Seq<u64>) -> Seq<Seq<u8>> {
    Seq::new(times.len(), |i: int| time_text(times[i]))
}

/// The saved lines of a sequence of times, one per time.
pub fn saved_lines(times: &Vec<u64>) -> (r: Vec<Vec<u8>>)
    ensures
        lines_view(r@) == saved_text(times@),
{
    let mut out: Vec<Vec<u8>> = Vec::new();
    let mut i: usize = 0;
    while i < times.len()
        invariant
            i <= times.len(),
            lines_view(out@) == saved_text(times@).subrange(0, i as int),
        decreases times.len() - i,
    {
        let line = time_line(times[i]);
        let ghost prev = out@;
        out.push(line);
        proof {
            assert(lines_view(out@) =~= lines_view(prev).push(line@));
            assert(saved_text(times@).subrange(0, i as int + 1) =~= saved_text(times@).subrange(
                0,
                i as int,
            ).push(time_text(times@[i as int])));
        }
        i = i + 1;
    }
    assert(saved_text(times@).subrange(0, i as int) =~= saved_text(times@));
    out
}

/// Saving times and reading the lines back gives the same times.
pub proof fn lemma_saved_round_trip(times: Seq<u64>)
    ensures
        parsed_times(saved_text(times)) == Some(times),
    decreases times.len(),
{
    if times.len() > 0 {
        let t = times.drop_last();
        lemma_saved_round_trip(t);
        assert(saved_text(times).drop_last() =~= saved_text(t));
        lemma_time_round_trip(times.last());
        lemma_decimal_value((times.last() / 1000) as nat);
        assert(times =~= t.push(times.last()));
    } else {
        assert(saved_text(times) =~= Seq::<Seq<u8>>::empty());
    }
}

/// One malformed non-empty line makes the whole saved history unreadable,
/// however many well-formed lines surround it.
pub proof fn lemma_malformed_rejects_all(lines: Seq<Seq<u8>>, i: int)
    requires
        0 <= i < lines.len(),
        lines[i].len() > 0,
        line_time(lines[i]).is_none(),
    ensures
        parsed_times(lines).is_none(),
{
    let p = lines.subrange(0, i + 1);
    assert(p.drop_last() =~= lines.subrange(0, i));
    assert(p.last() == lines[i]);
    assert(parsed_times(p).is_none());
    lemma_parsed_prefix_none(lines, i + 1, lines.len() as int);
    assert(lines.subrange(0, lines.len() as int) =~= lines);
}

} // verus!
