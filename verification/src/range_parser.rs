use vstd::prelude::*;
use vstd::string::StringExecFns;
use crate::error::AppError;
use crate::text::{
    is_space, is_digit, digit_val, all_digits, dec_val, parse_num, trim_spec,
    lemma_trim_front_is_skip, lemma_trim_back_is_take, lemma_dec_val_monotone,
    lemma_parse_num_bounds, is_space_exec, chars_of, string_from_chars, u64_to_string,
    find_char, lemma_find_char_bounds, lemma_find_char_at,
};

verus! {

// ---------------------------------------------------------------------------
// Specification of a selection expression
// ---------------------------------------------------------------------------

/// The set of integers from `a` through `b` inclusive.
pub open spec fn range_set(a: int, b: int) -> Set<int> {
    Set::new(|x: int| a <= x <= b)
}

/// The indices a single comma-separated token selects, or `None` when the
/// token is malformed or out of bounds. A token is trimmed, then read as
/// empty (selecting nothing), as `a-b` when it holds a hyphen, or as a
/// single number; numbers must lie in `1..=max` and a pair must have
/// `a <= b`.
pub open spec fn token_values(tok: Seq<char>, max: int) -> Option<Set<int>> {
    let t = trim_spec(tok);
    if t.len() == 0 {
        Some(Set::empty())
    } else {
        let k = find_char(t, '-') as int;
        if k < t.len() {
            let a = parse_num(trim_spec(t.take(k)));
            let b = parse_num(trim_spec(t.skip(k + 1)));
            if a is Some && b is Some {
                if 1 <= a->0 && 1 <= b->0 && a->0 <= b->0 && b->0 <= max {
                    Some(range_set(a->0, b->0))
                } else {
                    None
                }
            } else {
                None
            }
        } else {
            match parse_num(t) {
                Some(v) => if 1 <= v && v <= max {
                    Some(set![v])
                } else {
                    None
                },
                None => None,
            }
        }
    }
}

/// The union of the selections of all comma-separated tokens, or `None`
/// as soon as any token is malformed.
pub open spec fn sel_values(s: Seq<char>, max: int) -> Option<Set<int>>
    decreases s.len(),
{
    let k = find_char(s, ',') as int;
    if k < s.len() {
        match (token_values(s.take(k), max), sel_values(s.skip(k + 1), max)) {
            (Some(a), Some(b)) => Some(a.union(b)),
            _ => None,
        }
    } else {
        token_values(s, max)
    }
}

/// The case-insensitive keyword selecting every index.
pub open spec fn is_all(s: Seq<char>) -> bool {
    &&& s.len() == 3
    &&& (s[0] == 'a' || s[0] == 'A')
    &&& (s[1] == 'l' || s[1] == 'L')
    &&& (s[2] == 'l' || s[2] == 'L')
}

/// Strictly ascending: sorted with no duplicates.
pub open spec fn sorted_strict(q: Seq<usize>) -> bool {
    forall|i: int, j: int| 0 <= i < j < q.len() ==> q[i] < q[j]
}

/// The set of values a sequence of indices holds.
pub open spec fn elems(q: Seq<usize>) -> Set<int> {
    Set::new(|x: int| exists|i: int| 0 <= i < q.len() && (#[trigger] q[i]) as int == x)
}

/// Every value a well-formed selection produces lies in `1..=max`.
pub proof fn lemma_sel_values_in_range(s: Seq<char>, max: int)
    ensures
        sel_values(s, max) matches Some(sel) ==> forall|x: int| sel.contains(x) ==> 1 <= x <= max,
    decreases s.len(),
{
    let k = find_char(s, ',') as int;
    lemma_find_char_bounds(s, ',');
    if k < s.len() {
        lemma_sel_values_in_range(s.skip(k + 1), max);
    }
}

// ---------------------------------------------------------------------------
// Executable helpers
// ---------------------------------------------------------------------------

/// Bounds of `cs[from..to]` with ASCII whitespace removed at both ends.
#[verifier::loop_isolation(false)]
fn trim_bounds(cs: &Vec<char>, from: usize, to: usize) -> (r: (usize, usize))
    requires
        from <= to <= cs@.len(),
    ensures
        from <= r.0 <= r.1 <= to,
        cs@.subrange(r.0 as int, r.1 as int) == trim_spec(
            cs@.subrange(from as int, to as int),
        ),
{
    let mut a = from;
    while a < to && is_space_exec(cs[a])
        invariant
            from <= a <= to <= cs@.len(),
            forall|i: int| from <= i < a ==> is_space(#[trigger] cs@[i]),
        decreases to - a,
    {
        a += 1;
    }
    let mut b = to;
    while b > a && is_space_exec(cs[b - 1])
        invariant
            a <= b <= to <= cs@.len(),
            forall|i: int| b <= i < to ==> is_space(#[trigger] cs@[i]),
        decreases b,
    {
        b -= 1;
    }
    proof {
        let t = cs@.subrange(from as int, to as int);
        lemma_trim_front_is_skip(t, a - from);
        let u = t.skip(a - from);
        assert(u =~= cs@.subrange(a as int, to as int));
        lemma_trim_back_is_take(u, b - a);
        assert(u.take(b - a) =~= cs@.subrange(a as int, b as int));
    }
    (a, b)
}

/// Parses `cs[from..to]` as a number the way `parse_num` reads it.
#[verifier::loop_isolation(false)]
fn parse_usize(cs: &Vec<char>, from: usize, to: usize) -> (r: Option<usize>)
    requires
        from <= to <= cs@.len(),
    ensures
        match parse_num(cs@.subrange(from as int, to as int)) {
            Some(v) => r == Some(v as usize),
            None => r is None,
        },
{
    let ghost t = cs@.subrange(from as int, to as int);
    let mut i = from;
    if i < to && cs[i] == '+' {
        i += 1;
    }
    let ghost body = cs@.subrange(i as int, to as int);
    proof {
        if t.len() > 0 && t[0] == '+' {
            assert(body =~= t.drop_first());
        } else {
            assert(body =~= t);
        }
    }
    if i == to {
        return None;
    }
    let mut acc: usize = 0;
    let mut j = i;
    while j < to
        invariant
            from <= i <= j <= to <= cs@.len(),
            body == cs@.subrange(i as int, to as int),
            all_digits(body.take(j - i)),
            acc as int == dec_val(body.take(j - i)),
        decreases to - j,
    {
        let c = cs[j];
        let d = match crate::text::digit_of(c) {
            Some(d) => d,
            None => {
                proof {
                    assert(body[j - i] == cs@[j as int]);
                    assert(!is_digit(body[j - i]));
                    assert(!all_digits(body));
                }
                return None;
            },
        };
        proof {
            assert(body[j - i] == cs@[j as int]);
            assert(is_digit(body[j - i]));
            assert(d as int == digit_val(body[j - i]));
            assert(0 <= d <= 9);
        }
        if acc > (usize::MAX - d) / 10 {
            proof {
                let p = body.take(j - i + 1);
                assert(p.drop_last() =~= body.take(j - i));
                assert(dec_val(p) == acc as int * 10 + d);
                assert(acc as int * 10 + d > usize::MAX as int) by (nonlinear_arith)
                    requires
                        acc as int > (usize::MAX as int - d) / 10,
                        0 <= d <= 9,
                        acc as int >= 0;
                if all_digits(body) {
                    lemma_dec_val_monotone(body, j - i + 1);
                }
            }
            return None;
        }
        proof {
            assert(acc as int * 10 + d <= usize::MAX as int) by (nonlinear_arith)
                requires
                    acc as int <= (usize::MAX as int - d) / 10,
                    0 <= d <= 9,
                    acc as int >= 0;
        }
        let next = acc * 10 + d;
        proof {
            let p = body.take(j - i + 1);
            assert(p.drop_last() =~= body.take(j - i));
            assert(all_digits(p));
            assert(dec_val(p) == acc as int * 10 + d);
        }
        acc = next;
        j += 1;
    }
    proof {
        assert(body.take(to - i) =~= body);
        assert(body.len() > 0);
        assert(parse_num(t) == Some(dec_val(body)));
    }
    Some(acc)
}

#[verifier::loop_isolation(false)]
fn insert_sorted(acc: &mut Vec<usize>, x: usize)
    requires
        sorted_strict(old(acc)@),
    ensures
        sorted_strict(final(acc)@),
        elems(final(acc)@) == elems(old(acc)@).insert(x as int),
{
    let mut p: usize = 0;
    while p < acc.len() && acc[p] < x
        invariant
            0 <= p <= acc@.len(),
            acc@ == old(acc)@,
            forall|i: int| 0 <= i < p ==> (#[trigger] acc@[i]) < x,
        decreases acc@.len() - p,
    {
        p += 1;
    }
    if p < acc.len() && acc[p] == x {
        proof {
            assert(elems(acc@).contains(x as int));
            assert(elems(acc@) =~= elems(old(acc)@).insert(x as int));
        }
    } else {
        let ghost q0 = acc@;
        acc.insert(p, x);
        proof {
            let q = acc@;
            assert(q == q0.insert(p as int, x));
            assert forall|i: int, j: int| 0 <= i < j < q.len() implies q[i] < q[j] by {
                if j < p {
                    assert(q[i] == q0[i] && q[j] == q0[j]);
                } else if i > p {
                    assert(q[i] == q0[i - 1] && q[j] == q0[j - 1]);
                } else if i < p && j == p {
                    assert(q[i] == q0[i] && q[j] == x);
                } else if i < p && j > p {
                    assert(q[i] == q0[i] && q[j] == q0[j - 1]);
                    assert(q0[i] < x);
                    if p < q0.len() {
                        assert(q0[p as int] > x);
                    }
                    assert(j - 1 >= p);
                    if j - 1 == p {
                        assert(q0[j - 1] > x || j - 1 >= q0.len());
                    }
                    assert(q0[i] < q0[j - 1] || q0[i] < x);
                } else {
                    // i == p < j
                    assert(q[i] == x && q[j] == q0[j - 1]);
                    assert(j - 1 >= p);
                    assert(q0[p as int] > x || p as int > q0.len() - 1);
                    assert(x < q0[j - 1]);
                }
            }
            assert forall|z: int| elems(q).contains(z) <==> elems(q0).insert(
                x as int,
            ).contains(z) by {
                if elems(q).contains(z) {
                    let i = choose|i: int| 0 <= i < q.len() && (#[trigger] q[i]) as int == z;
                    if i == p {
                        assert(z == x as int);
                    } else if i < p {
                        assert(q0[i] as int == z);
                    } else {
                        assert(q0[i - 1] as int == z);
                    }
                }
                if elems(q0).insert(x as int).contains(z) {
                    if z == x as int {
                        assert((q[p as int]) as int == z);
                        assert(elems(q).contains(z));
                    } else {
                        let i = choose|i: int|
                            0 <= i < q0.len() && (#[trigger] q0[i]) as int == z;
                        if i < p {
                            assert((q[i]) as int == z);
                        } else {
                            assert((q[i + 1]) as int == z);
                        }
                        assert(elems(q).contains(z));
                    }
                }
            }
            assert(elems(q) =~= elems(q0).insert(x as int));
        }
    }
}

fn insert_range(acc: &mut Vec<usize>, a: usize, b: usize)
    requires
        a <= b,
        sorted_strict(old(acc)@),
    ensures
        sorted_strict(final(acc)@),
        elems(final(acc)@) == elems(old(acc)@).union(range_set(a as int, b as int)),
{
    let mut x = a;
    proof {
        assert(elems(acc@) =~= elems(old(acc)@).union(range_set(a as int, a as int - 1)));
    }
    loop
        invariant_except_break
            a <= x <= b,
            sorted_strict(acc@),
            elems(acc@) == elems(old(acc)@).union(range_set(a as int, x as int - 1)),
        ensures
            sorted_strict(acc@),
            elems(acc@) == elems(old(acc)@).union(range_set(a as int, b as int)),
        decreases b - x,
    {
        insert_sorted(acc, x);
        proof {
            assert(elems(acc@) =~= elems(old(acc)@).union(range_set(a as int, x as int)));
        }
        if x == b {
            break;
        }
        x += 1;
    }
}

// ---------------------------------------------------------------------------
// Token processing
// ---------------------------------------------------------------------------

#[verifier::loop_isolation(false)]
fn process_token(
    cs: &Vec<char>,
    from: usize,
    to: usize,
    max: usize,
    acc: &mut Vec<usize>,
) -> (r: Result<(), AppError>)
    requires
        from <= to <= cs@.len(),
        sorted_strict(old(acc)@),
    ensures
        sorted_strict(final(acc)@),
        match token_values(cs@.subrange(from as int, to as int), max as int) {
            Some(s) => r is Ok && elems(final(acc)@) == elems(old(acc)@).union(s),
            None => (r matches Err(AppError::InvalidRange(_))) && final(acc)@ == old(acc)@,
        },
{
    let ghost tok = cs@.subrange(from as int, to as int);
    let (a0, b0) = trim_bounds(cs, from, to);
    let ghost t = trim_spec(tok);
    proof {
        assert(t == cs@.subrange(a0 as int, b0 as int));
    }
    if a0 == b0 {
        proof {
            assert(t.len() == 0);
            assert(elems(acc@) =~= elems(acc@).union(Set::empty()));
        }
        return Ok(());
    }
    // find the first hyphen inside the trimmed token
    let mut d = a0;
    while d < b0 && cs[d] != '-'
        invariant
            a0 <= d <= b0 <= cs@.len(),
            forall|i: int| a0 <= i < d ==> cs@[i] != '-',
        decreases b0 - d,
    {
        d += 1;
    }
    proof {
        lemma_find_char_at(t, '-', d - a0);
    }
    if d < b0 {
        // a-b pair
        let ghost k = d - a0;
        let (la, lb) = trim_bounds(cs, a0, d);
        let (ra, rb) = trim_bounds(cs, d + 1, b0);
        proof {
            assert(t.take(k) =~= cs@.subrange(a0 as int, d as int));
            assert(t.skip(k + 1) =~= cs@.subrange(d as int + 1, b0 as int));
            assert(trim_spec(t.take(k)) == cs@.subrange(la as int, lb as int));
            assert(trim_spec(t.skip(k + 1)) == cs@.subrange(ra as int, rb as int));
        }
        let sv = parse_usize(cs, la, lb);
        let ev = parse_usize(cs, ra, rb);
        proof {
            lemma_parse_num_bounds(trim_spec(t.take(k)));
            lemma_parse_num_bounds(trim_spec(t.skip(k + 1)));
        }
        match (sv, ev) {
            (Some(start), Some(end)) => {
                if start == 0 || end == 0 {
                    return Err(AppError::InvalidRange(String::from_str("indices start at 1")));
                }
                if start > end {
                    let msg = u64_to_string(start as u64).concat(" > ").concat(
                        u64_to_string(end as u64).as_str(),
                    );
                    return Err(AppError::InvalidRange(msg));
                }
                if end > max {
                    let msg = u64_to_string(end as u64).concat(
                        " exceeds playlist size (",
                    ).concat(u64_to_string(max as u64).as_str()).concat(")");
                    return Err(AppError::InvalidRange(msg));
                }
                insert_range(acc, start, end);
                Ok(())
            },
            _ => {
                let body = string_from_chars(cs, a0, b0);
                let msg = String::from_str("invalid number in \"").concat(body.as_str()).concat(
                    "\"",
                );
                Err(AppError::InvalidRange(msg))
            },
        }
    } else {
        // single index
        let sv = parse_usize(cs, a0, b0);
        proof {
            lemma_parse_num_bounds(t);
        }
        match sv {
            Some(idx) => {
                if idx == 0 {
                    return Err(AppError::InvalidRange(String::from_str("indices start at 1")));
                }
                if idx > max {
                    let msg = u64_to_string(idx as u64).concat(
                        " exceeds playlist size (",
                    ).concat(u64_to_string(max as u64).as_str()).concat(")");
                    return Err(AppError::InvalidRange(msg));
                }
                insert_sorted(acc, idx);
                proof {
                    assert(elems(acc@) =~= elems(old(acc)@).union(set![idx as int]));
                }
                Ok(())
            },
            None => {
                let body = string_from_chars(cs, a0, b0);
                let msg = String::from_str("invalid number \"").concat(body.as_str()).concat(
                    "\"",
                );
                Err(AppError::InvalidRange(msg))
            },
        }
    }
}

// ---------------------------------------------------------------------------
// The public parser
// ---------------------------------------------------------------------------

/// Parses a selection expression such as `1,3-5,8` against a catalog of
/// `max` items.
///
/// The trimmed input `all` (case-insensitive) selects every index from 1
/// through `max`. Otherwise the input is a comma-separated list of tokens,
/// each a single index or a pair `a-b`; the result holds exactly the
/// selected indices, in strictly ascending order. A malformed token, an
/// index of 0, a pair with `a > b`, a value above `max`, or an empty
/// selection fails with `InvalidRange`.
pub fn parse_ranges(input: &str, max: usize) -> (r: Result<Vec<usize>, AppError>)
    ensures
        ({
            let t = trim_spec(input@);
            &&& (is_all(t) ==> r is Ok && r->Ok_0@.len() == max && (forall|i: int|
                0 <= i < max ==> (#[trigger] r->Ok_0@[i]) as int == i + 1))
            &&& (!is_all(t) ==> match sel_values(t, max as int) {
                Some(sel) => if sel == Set::<int>::empty() {
                    r matches Err(AppError::InvalidRange(_))
                } else {
                    &&& r is Ok
                    &&& sorted_strict(r->Ok_0@)
                    &&& elems(r->Ok_0@) == sel
                },
                None => r matches Err(AppError::InvalidRange(_)),
            })
        }),
        r is Ok ==> forall|i: int| 0 <= i < r->Ok_0@.len() ==> 1 <= #[trigger] r->Ok_0@[i]
            <= max,
{
    let cs = chars_of(input);
    let (lo, hi) = trim_bounds(&cs, 0, cs.len());
    let ghost t = trim_spec(input@);
    proof {
        assert(cs@.subrange(0, cs@.len() as int) =~= cs@);
        assert(t == cs@.subrange(lo as int, hi as int));
    }

    if hi - lo == 3 {
        let c0 = cs[lo];
        let c1 = cs[lo + 1];
        let c2 = cs[lo + 2];
        if (c0 == 'a' || c0 == 'A') && (c1 == 'l' || c1 == 'L') && (c2 == 'l' || c2 == 'L') {
            let mut v: Vec<usize> = Vec::new();
            let mut i: usize = 0;
            while i < max
                invariant
                    i <= max,
                    v@.len() == i,
                    forall|k: int| 0 <= k < i ==> (#[trigger] v@[k]) as int == k + 1,
                decreases max - i,
            {
                v.push(i + 1);
                i += 1;
            }
            return Ok(v);
        }
    }
    proof {
        assert(!is_all(t));
    }

    let mut acc: Vec<usize> = Vec::new();
    let mut pos = lo;
    proof {
        assert(t.skip(0) =~= t);
        match sel_values(t, max as int) {
            Some(rest0) => {
                assert(elems(acc@).union(rest0) =~= rest0);
            },
            None => {},
        }
    }
    loop
        invariant_except_break
            lo <= pos <= hi <= cs@.len(),
            cs@ == input@,
            t == cs@.subrange(lo as int, hi as int),
            t == trim_spec(input@),
            !is_all(t),
            sorted_strict(acc@),
            sel_values(t, max as int) == (match sel_values(t.skip(pos - lo), max as int) {
                Some(rest) => Some(elems(acc@).union(rest)),
                None => None::<Set<int>>,
            }),
        ensures
            sorted_strict(acc@),
            sel_values(t, max as int) == Some(elems(acc@)),
        decreases hi - pos,
    {
        let mut j = pos;
        while j < hi && cs[j] != ','
            invariant
                pos <= j <= hi <= cs@.len(),
                forall|i: int| pos <= i < j ==> #[trigger] cs@[i] != ',',
            decreases hi - j,
        {
            j += 1;
        }
        let ghost rest = t.skip(pos - lo);
        let ghost acc_prev = acc@;
        proof {
            assert(rest =~= cs@.subrange(pos as int, hi as int));
            assert forall|i: int| 0 <= i < j - pos implies #[trigger] rest[i] != ',' by {
                assert(rest[i] == cs@[pos + i]);
            }
            if j < hi {
                assert(rest[j - pos] == cs@[j as int]);
            }
            lemma_find_char_at(rest, ',', j - pos);
            assert(rest.take(j - pos) =~= cs@.subrange(pos as int, j as int));
        }
        let ghost tokv = token_values(cs@.subrange(pos as int, j as int), max as int);
        match process_token(&cs, pos, j, max, &mut acc) {
            Err(e) => {
                proof {
                    assert(tokv is None);
                    if j == hi {
                        assert(rest =~= rest.take(j - pos));
                    }
                    assert(sel_values(rest, max as int) is None);
                    assert(sel_values(t, max as int) is None);
                }
                return Err(e);
            },
            Ok(()) => {},
        }
        let ghost s = tokv->0;
        proof {
            assert(elems(acc@) == elems(acc_prev).union(s));
        }
        if j == hi {
            proof {
                assert(rest =~= rest.take(j - pos));
                assert(sel_values(rest, max as int) == Some(s));
                assert(sel_values(t, max as int) == Some(elems(acc_prev).union(s)));
            }
            break;
        }
        proof {
            let rest2 = t.skip(j + 1 - lo);
            assert(rest2 =~= rest.skip(j - pos + 1));
            match sel_values(rest2, max as int) {
                Some(r2) => {
                    assert(sel_values(rest, max as int) == Some(s.union(r2)));
                    assert(sel_values(t, max as int) == Some(
                        elems(acc_prev).union(s.union(r2)),
                    ));
                    assert(elems(acc_prev).union(s.union(r2)) =~= elems(acc@).union(r2));
                },
                None => {
                    assert(sel_values(rest, max as int) is None);
                    assert(sel_values(t, max as int) is None);
                },
            }
        }
        pos = j + 1;
    }

    if acc.len() == 0 {
        proof {
            assert(elems(acc@) =~= Set::<int>::empty());
        }
        return Err(AppError::InvalidRange(String::from_str("no indices selected")));
    }
    proof {
        assert(elems(acc@).contains(acc@[0] as int));
        assert(!Set::<int>::empty().contains(acc@[0] as int));
        assert(elems(acc@) != Set::<int>::empty());
        lemma_sel_values_in_range(t, max as int);
        assert forall|i: int| 0 <= i < acc@.len() implies 1 <= #[trigger] acc@[i] <= max by {
            assert(elems(acc@).contains(acc@[i] as int));
        }
    }
    Ok(acc)
}

// ---------------------------------------------------------------------------
// Laws
// ---------------------------------------------------------------------------

/// The keyword `all` — in any letter case, with surrounding whitespace —
/// always takes the branch of the parser that returns every index from 1
/// through `max`, whatever `max` is.
pub proof fn lemma_all_keyword()
    ensures
        is_all(trim_spec("all"@)),
        is_all(trim_spec("ALL"@)),
{
    reveal_strlit("all");
    reveal_strlit("ALL");
    lemma_trim_identity("all"@);
    lemma_trim_identity("ALL"@);
}

/// A selection result is strictly ascending, so it is sorted and holds
/// no duplicates, however unordered or repetitive the input was.
pub proof fn lemma_result_sorted_unique(q: Seq<usize>)
    requires
        sorted_strict(q),
    ensures
        q.no_duplicates(),
{
    assert forall|i: int, j: int|
        0 <= i < q.len() && 0 <= j < q.len() && i != j implies q[i] != q[j] by {
        if i < j {
            assert(q[i] < q[j]);
        } else {
            assert(q[j] < q[i]);
        }
    }
}

/// Trimming a sequence without leading or trailing whitespace keeps it.
pub proof fn lemma_trim_identity(s: Seq<char>)
    requires
        forall|i: int| 0 <= i < s.len() ==> !is_space(#[trigger] s[i]),
    ensures
        trim_spec(s) == s,
{
    lemma_trim_front_is_skip(s, 0);
    assert(s.skip(0) =~= s);
    lemma_trim_back_is_take(s, s.len() as int);
    assert(s.take(s.len() as int) =~= s);
}

} // verus!
