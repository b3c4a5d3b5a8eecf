//! Parameter-sweep expansion for multi-case studies: axis validation and
//! the deterministic cartesian product of axis values (axis order, then
//! value order), as index tuples.

use vstd::prelude::*;
use crate::text::{trim_ws, chars_of, trim_chars, chars_eq, append_str, append_chars, string_from_chars};

verus! {

/// Errors of sweep planning.
#[derive(Debug, Clone, PartialEq)]
pub enum Error {
    /// An invalid sweep description, with its message.
    Invalid(String),
}

/// The message of an invalid sweep.
pub open spec fn invalid_message(e: Error) -> Seq<char> {
    match e {
        Error::Invalid(m) => m@,
    }
}

/// Outcome of validating one axis: a name with visible characters, at
/// least one value, and only finite values.
pub open spec fn axis_check(name: Seq<char>, count: usize, all_finite: bool) -> Result<(), Seq<char>> {
    if trim_ws(name).len() == 0 {
        Err("sweep axis names an empty parameter"@)
    } else if count == 0 {
        Err("sweep axis `"@ + name + "` has no values"@)
    } else if !all_finite {
        Err("sweep axis `"@ + name + "` has non-finite values"@)
    } else {
        Ok(())
    }
}

fn message(pieces_before: &str, name: &Vec<char>, after: &str) -> (r: String)
    ensures
        r@ == pieces_before@ + name@ + after@,
{
    let mut v: Vec<char> = Vec::new();
    append_str(&mut v, pieces_before);
    append_chars(&mut v, name);
    append_str(&mut v, after);
    string_from_chars(v.as_slice())
}

/// Validate one sweep axis: `count` values, `all_finite` whether every one
/// of them is finite.
pub fn check_axis(name: &str, count: usize, all_finite: bool) -> (r: Result<(), Error>)
    ensures
        match (r, axis_check(name@, count, all_finite)) {
            (Ok(()), Ok(())) => true,
            (Err(e), Err(m)) => invalid_message(e) == m,
            _ => false,
        },
{
    let v = chars_of(name);
    let t = trim_chars(&v);
    if t.len() == 0 {
        let m = chars_of("sweep axis names an empty parameter");
        return Err(Error::Invalid(string_from_chars(m.as_slice())));
    }
    if count == 0 {
        return Err(Error::Invalid(message("sweep axis `", &v, "` has no values")));
    }
    if !all_finite {
        return Err(Error::Invalid(message("sweep axis `", &v, "` has non-finite values")));
    }
    Ok(())
}

/// Outcome of validating axes `i..` of a sweep whose earlier names are
/// `seen`: per axis in order, a visible name, at least one value and only
/// finite ones, and a name not used before.
pub open spec fn axes_check(
    names: Seq<Seq<char>>,
    counts: Seq<usize>,
    finite: Seq<bool>,
    i: int,
) -> Result<(), Seq<char>>
    decreases names.len() - i,
{
    if i < 0 || i >= names.len() {
        Ok(())
    } else if trim_ws(names[i]).len() == 0 {
        Err("sweep axis names an empty parameter"@)
    } else if counts[i] == 0 || !finite[i] {
        Err("sweep axis `"@ + names[i] + "` has no (finite) values"@)
    } else if exists|j: int| 0 <= j < i && names[j] == names[i] {
        Err("duplicate sweep axis `"@ + names[i] + "`"@)
    } else {
        axes_check(names, counts, finite, i + 1)
    }
}

/// Validate the axes of a sweep (names, value counts, and whether each
/// axis's values are all finite), in axis order.
#[verifier::loop_isolation(false)]
pub fn check_axes(names: &Vec<String>, counts: &Vec<usize>, finite: &Vec<bool>) -> (r: Result<(), Error>)
    requires
        counts.len() == names.len(),
        finite.len() == names.len(),
    ensures
        match (r, axes_check(names@.map_values(|s: String| s@), counts@, finite@, 0)) {
            (Ok(()), Ok(())) => true,
            (Err(e), Err(m)) => invalid_message(e) == m,
            _ => false,
        },
{
    let ghost ns = names@.map_values(|s: String| s@);
    let mut i: usize = 0;
    while i < names.len()
        invariant
            i <= names.len(),
            counts.len() == names.len(),
            finite.len() == names.len(),
            ns == names@.map_values(|s: String| s@),
            axes_check(ns, counts@, finite@, 0) == axes_check(ns, counts@, finite@, i as int),
        decreases names.len() - i,
    {
        let v = chars_of(names[i].as_str());
        assert(v@ == ns[i as int]);
        let t = trim_chars(&v);
        if t.len() == 0 {
            let m = chars_of("sweep axis names an empty parameter");
            return Err(Error::Invalid(string_from_chars(m.as_slice())));
        }
        if counts[i] == 0 || !finite[i] {
            return Err(Error::Invalid(message("sweep axis `", &v, "` has no (finite) values")));
        }
        let mut j: usize = 0;
        while j < i
            invariant
                j <= i < names.len(),
                v@ == ns[i as int],
                ns == names@.map_values(|s: String| s@),
                forall|t: int| 0 <= t < j ==> ns[t] != ns[i as int],
            decreases i - j,
        {
            let w = chars_of(names[j].as_str());
            assert(w@ == ns[j as int]);
            if chars_eq(&w, &v) {
                assert(ns[j as int] == ns[i as int]);
                return Err(Error::Invalid(message("duplicate sweep axis `", &v, "`")));
            }
            j = j + 1;
        }
        i = i + 1;
    }
    Ok(())
}

/// Every case of `cases` extended by each value index `0..n`, in order.
pub open spec fn extend_all(cases: Seq<Seq<usize>>, n: usize) -> Seq<Seq<usize>>
    decreases cases.len(),
{
    if cases.len() == 0 {
        Seq::empty()
    } else {
        extend_all(cases.drop_last(), n) + Seq::new(n as nat, |j: int| cases.last().push(j as usize))
    }
}

/// The cases of a sweep whose axes have `counts` values: index tuples of
/// the cartesian product, first axis slowest.
pub open spec fn sweep_product(counts: Seq<usize>) -> Seq<Seq<usize>>
    decreases counts.len(),
{
    if counts.len() == 0 {
        seq![Seq::empty()]
    } else {
        extend_all(sweep_product(counts.drop_last()), counts.last())
    }
}

/// The product of the value counts.
pub open spec fn case_count(counts: Seq<usize>) -> nat
    decreases counts.len(),
{
    if counts.len() == 0 {
        1
    } else {
        case_count(counts.drop_last()) * (counts.last() as nat)
    }
}

pub open spec fn case_views(v: Seq<Vec<usize>>) -> Seq<Seq<usize>> {
    v.map_values(|c: Vec<usize>| c@)
}

proof fn lemma_extend_all_len(cases: Seq<Seq<usize>>, n: usize)
    ensures
        extend_all(cases, n).len() == cases.len() * n,
    decreases cases.len(),
{
    if cases.len() > 0 {
        lemma_extend_all_len(cases.drop_last(), n);
        assert((cases.len() - 1) * n + n == cases.len() * n) by (nonlinear_arith);
    }
}

/// A sweep has as many cases as the product of its axes' value counts.
pub proof fn lemma_sweep_case_count(counts: Seq<usize>)
    ensures
        sweep_product(counts).len() == case_count(counts),
    decreases counts.len(),
{
    if counts.len() > 0 {
        lemma_sweep_case_count(counts.drop_last());
        lemma_extend_all_len(sweep_product(counts.drop_last()), counts.last());
    }
}

/// Every case assigns one value index to each axis, within that axis's
/// count.
pub proof fn lemma_sweep_cases_in_range(counts: Seq<usize>, i: int)
    requires
        0 <= i < sweep_product(counts).len(),
    ensures
        sweep_product(counts)[i].len() == counts.len(),
        forall|a: int| 0 <= a < counts.len() ==> #[trigger] sweep_product(counts)[i][a] < counts[a],
    decreases counts.len(),
{
    if counts.len() > 0 {
        let prev = sweep_product(counts.drop_last());
        lemma_extend_all_member(prev, counts.last(), i);
        let (c, j) = choose|c: int, j: int| 0 <= c < prev.len() && 0 <= j < counts.last()
            && sweep_product(counts)[i] == #[trigger] prev[c].push(j as usize);
        lemma_sweep_cases_in_range(counts.drop_last(), c);
    }
}

proof fn lemma_extend_all_member(cases: Seq<Seq<usize>>, n: usize, i: int)
    requires
        0 <= i < extend_all(cases, n).len(),
    ensures
        exists|c: int, j: int| 0 <= c < cases.len() && 0 <= j < n
            && extend_all(cases, n)[i] == #[trigger] cases[c].push(j as usize),
    decreases cases.len(),
{
    lemma_extend_all_len(cases, n);
    let prev = extend_all(cases.drop_last(), n);
    lemma_extend_all_len(cases.drop_last(), n);
    if i < prev.len() {
        lemma_extend_all_member(cases.drop_last(), n, i);
        let (c, j) = choose|c: int, j: int| 0 <= c < cases.drop_last().len() && 0 <= j < n
            && prev[i] == #[trigger] cases.drop_last()[c].push(j as usize);
        assert(cases[c] == cases.drop_last()[c]);
        assert(extend_all(cases, n)[i] == cases[c].push(j as usize));
    } else {
        let j = i - prev.len();
        assert(extend_all(cases, n)[i] == cases[cases.len() - 1].push(j as usize));
    }
}

/// The value-index tuples of a sweep with `counts[a]` values on axis `a`:
/// the cartesian product in axis order, then value order.
pub fn sweep_indices(counts: &Vec<usize>) -> (r: Vec<Vec<usize>>)
    ensures
        case_views(r@) == sweep_product(counts@),
{
    let mut cases: Vec<Vec<usize>> = Vec::new();
    cases.push(Vec::new());
    assert(case_views(cases@) =~= seq![Seq::<usize>::empty()]);
    assert(counts@.take(0) =~= Seq::<usize>::empty());
    let mut a: usize = 0;
    while a < counts.len()
        invariant
            a <= counts.len(),
            case_views(cases@) == sweep_product(counts@.take(a as int)),
        decreases counts.len() - a,
    {
        let n = counts[a];
        let ghost prev = case_views(cases@);
        let mut next: Vec<Vec<usize>> = Vec::new();
        let mut c: usize = 0;
        assert(prev.take(0) =~= Seq::<Seq<usize>>::empty());
        assert(case_views(next@) =~= Seq::<Seq<usize>>::empty());
        while c < cases.len()
            invariant
                c <= cases.len(),
                prev == case_views(cases@),
                n == counts@[a as int],
                case_views(next@) == extend_all(prev.take(c as int), n),
            decreases cases.len() - c,
        {
            let ghost before = case_views(next@);
            let mut j: usize = 0;
            while j < n
                invariant
                    j <= n,
                    c < cases.len(),
                    prev == case_views(cases@),
                    case_views(next@) == before + Seq::new(j as nat, |t: int| prev[c as int].push(t as usize)),
                decreases n - j,
            {
                let mut case = cases[c].clone();
                assert(case@ == cases@[c as int]@);
                let ghost old_next = case_views(next@);
                case.push(j);
                next.push(case);
                assert(case_views(next@) =~= old_next.push(case@));
                assert(case_views(next@) =~= before + Seq::new((j + 1) as nat, |t: int| prev[c as int].push(t as usize)));
                j = j + 1;
            }
            assert(prev.take(c + 1).drop_last() =~= prev.take(c as int));
            assert(prev.take(c + 1).last() == prev[c as int]);
            c = c + 1;
        }
        assert(prev.take(cases@.len() as int) =~= prev);
        assert(counts@.take(a + 1).drop_last() =~= counts@.take(a as int));
        cases = next;
        a = a + 1;
    }
    assert(counts@.take(counts@.len() as int) =~= counts@);
    cases
}

} // verus!
