use vstd::prelude::*;

use vstd::utf8::encode_utf8;

use crate::models::MonthCount;

verus! {

/// Lexicographic order of byte sequences (the order of `String`s).
pub open spec fn lex_lt(a: Seq<u8>, b: Seq<u8>) -> bool
    decreases a.len(),
{
    if a.len() == 0 {
        b.len() > 0
    } else if b.len() == 0 {
        false
    } else if a[0] != b[0] {
        a[0] < b[0]
    } else {
        lex_lt(a.drop_first(), b.drop_first())
    }
}

proof fn lemma_lex_irrefl(a: Seq<u8>)
    ensures
        !lex_lt(a, a),
    decreases a.len(),
{
    if a.len() > 0 {
        lemma_lex_irrefl(a.drop_first());
    }
}

proof fn lemma_lex_total(a: Seq<u8>, b: Seq<u8>)
    ensures
        a == b || lex_lt(a, b) || lex_lt(b, a),
    decreases a.len(),
{
    if a.len() > 0 && b.len() > 0 && a[0] == b[0] {
        lemma_lex_total(a.drop_first(), b.drop_first());
        if a.drop_first() == b.drop_first() {
            assert(a =~= b) by {
                assert forall|i: int| 0 <= i < a.len() implies a[i] == b[i] by {
                    if i > 0 {
                        assert(a[i] == a.drop_first()[i - 1]);
                        assert(b[i] == b.drop_first()[i - 1]);
                    }
                }
            }
        }
    } else if a.len() == 0 && b.len() == 0 {
        assert(a =~= b);
    }
}

proof fn lemma_lex_trans(a: Seq<u8>, b: Seq<u8>, c: Seq<u8>)
    requires
        lex_lt(a, b),
        lex_lt(b, c),
    ensures
        lex_lt(a, c),
    decreases a.len(),
{
    if a.len() > 0 && b.len() > 0 && c.len() > 0 && a[0] == b[0] && b[0] == c[0] {
        lemma_lex_trans(a.drop_first(), b.drop_first(), c.drop_first());
    }
}

fn bytes_lt(a: &[u8], b: &[u8]) -> (r: bool)
    ensures
        r == lex_lt(a@, b@),
    decreases a@.len(),
{
    if a.len() == 0 {
        return b.len() > 0;
    }
    if b.len() == 0 {
        return false;
    }
    if a[0] != b[0] {
        return a[0] < b[0];
    }
    let a2 = &a[1..a.len()];
    let b2 = &b[1..b.len()];
    assert(a2@ == a@.drop_first());
    assert(b2@ == b@.drop_first());
    bytes_lt(a2, b2)
}

/// The month key of an ISO date text: its first seven bytes (`YYYY-MM`),
/// when it has that many.
pub open spec fn month_key(date: Seq<char>) -> Option<Seq<u8>> {
    let bytes = encode_utf8(date);
    if bytes.len() >= 7 {
        Some(bytes.take(7))
    } else {
        None
    }
}

/// How many of `dates` have the month key `key`.
pub open spec fn month_tally(dates: Seq<String>, key: Seq<u8>) -> nat
    decreases dates.len(),
{
    if dates.len() == 0 {
        0
    } else {
        month_tally(dates.drop_last(), key) + if month_key(dates.last()@) == Some(key) {
            1nat
        } else {
            0nat
        }
    }
}

/// `trend` lists each month key of `dates` once, in increasing order, with
/// the number of dates in that month.
pub open spec fn is_monthly_trend(dates: Seq<String>, trend: Seq<MonthCount>) -> bool {
    &&& forall|i: int, j: int|
        0 <= i < j < trend.len() ==> lex_lt(
            encode_utf8(#[trigger] trend[i].month@),
            encode_utf8(#[trigger] trend[j].month@),
        )
    &&& forall|i: int|
        0 <= i < trend.len() ==> {
            &&& #[trigger] trend[i].count == month_tally(dates, encode_utf8(trend[i].month@))
            &&& trend[i].count > 0
        }
    &&& forall|d: int|
        0 <= d < dates.len() && (#[trigger] month_key(dates[d]@)) is Some ==> exists|i: int|
            0 <= i < trend.len() && month_key(dates[d]@) == Some(encode_utf8(#[trigger] trend[i].month@))
}

/// A date text can be cut after its seventh byte: that byte ends a character.
pub open spec fn cuttable(date: Seq<char>) -> bool {
    encode_utf8(date).len() >= 7 ==> vstd::utf8::is_char_boundary(encode_utf8(date), 7)
}

proof fn lemma_tally_step(dates: Seq<String>, i: int, key: Seq<u8>)
    requires
        0 <= i < dates.len(),
    ensures
        month_tally(dates.take(i + 1), key) == month_tally(dates.take(i), key) + if month_key(
            dates[i]@,
        ) == Some(key) {
            1nat
        } else {
            0nat
        },
{
    assert(dates.take(i + 1).drop_last() == dates.take(i));
    assert(dates.take(i + 1).last() == dates[i]);
}

/// Counts notes per creation month: each ISO date of `dates` that has at
/// least seven bytes falls in the month named by its first seven bytes
/// (`YYYY-MM`); the months come in increasing order, each with its count.
pub fn monthly_trend(dates: &Vec<String>) -> (trend: Vec<MonthCount>)
    requires
        dates@.len() <= u32::MAX,
        forall|i: int| 0 <= i < dates@.len() ==> cuttable(#[trigger] dates@[i]@),
    ensures
        is_monthly_trend(dates@, trend@),
{
    let mut trend: Vec<MonthCount> = Vec::new();
    let n = dates.len();
    for idx in 0..n
        invariant
            n == dates@.len(),
            n <= u32::MAX,
            forall|i: int| 0 <= i < dates@.len() ==> cuttable(#[trigger] dates@[i]@),
            is_monthly_trend(dates@.take(idx as int), trend@),
            trend@.len() <= idx,
    {
        let ghost prev = trend@;
        let ghost seen = dates@.take(idx as int);
        let ghost next = dates@.take(idx + 1);
        proof {
            assert forall|k: Seq<u8>| #[trigger] month_tally(next, k) == month_tally(seen, k) + if month_key(
                dates@[idx as int]@,
            ) == Some(k) {
                1nat
            } else {
                0nat
            } by {
                lemma_tally_step(dates@, idx as int, k);
            }
            assert forall|d: int| 0 <= d < idx implies #[trigger] next[d] == seen[d] by {}
        }
        let s: &str = dates[idx].as_str();
        let s_bytes = s.as_bytes();
        assert(s_bytes@ == encode_utf8(dates@[idx as int]@));
        if s_bytes.len() >= 7 {
            let (m, _rest) = s.split_at(7);
            let month_bytes = m.as_bytes();
            let ghost key = encode_utf8(s@).take(7);
            assert(month_bytes@ == key);
            assert(month_key(dates@[idx as int]@) == Some(key));
            // first position whose month is not before this one
            let len = trend.len();
            let mut p: usize = 0;
            while p < len && bytes_lt(trend[p].month.as_str().as_bytes(), month_bytes)
                invariant
                    len == trend@.len(),
                    p <= len,
                    month_bytes@ == key,
                    forall|j: int| 0 <= j < p ==> lex_lt(encode_utf8(#[trigger] trend@[j].month@), key),
                decreases len - p,
            {
                p = p + 1;
            }
            let found = p < len && !bytes_lt(month_bytes, trend[p].month.as_str().as_bytes());
            if found {
                proof {
                    lemma_lex_total(encode_utf8(trend@[p as int].month@), key);
                }
                let mc = trend.remove(p);
                proof {
                    assert(month_tally(seen, key) == mc.count);
                    assert(mc.count <= idx) by {
                        lemma_tally_bound(seen, key);
                    }
                }
                let updated = MonthCount { month: mc.month, count: mc.count + 1 };
                trend.insert(p, updated);
                proof {
                    assert forall|j: int| 0 <= j < trend@.len() && j != p implies #[trigger] trend@[j]
                        == prev[j] by {}
                    assert forall|i: int|
                        0 <= i < trend@.len() implies {
                        &&& #[trigger] trend@[i].count == month_tally(next, encode_utf8(trend@[i].month@))
                        &&& trend@[i].count > 0
                    } by {
                        if i != p {
                            assert(trend@[i] == prev[i]);
                            assert(encode_utf8(prev[i].month@) != key) by {
                                if i < p {
                                    lemma_lex_irrefl(key);
                                } else {
                                    lemma_lex_irrefl(key);
                                }
                            }
                        }
                    }
                    assert forall|d: int|
                        0 <= d < next.len() && (#[trigger] month_key(next[d]@)) is Some implies exists|i: int|
                        0 <= i < trend@.len() && month_key(next[d]@) == Some(
                            encode_utf8(#[trigger] trend@[i].month@),
                        ) by {
                        if d < idx {
                            assert(next[d] == seen[d]);
                            let i = choose|i: int|
                                0 <= i < prev.len() && month_key(seen[d]@) == Some(
                                    encode_utf8(#[trigger] prev[i].month@),
                                );
                            assert(encode_utf8(trend@[i].month@) == encode_utf8(prev[i].month@));
                        } else {
                            assert(encode_utf8(trend@[p as int].month@) == key);
                        }
                    }
                }
            } else {
                proof {
                    if p < len {
                        lemma_lex_total(encode_utf8(trend@[p as int].month@), key);
                    }
                }
                let month = m.to_owned();
                assert(encode_utf8(month@) == key);
                proof {
                    assert forall|i: int| 0 <= i < prev.len() implies encode_utf8(
                        #[trigger] prev[i].month@,
                    ) != key by {
                        lemma_lex_irrefl(key);
                        if i > p {
                            assert(lex_lt(
                                encode_utf8(prev[p as int].month@),
                                encode_utf8(prev[i].month@),
                            ));
                            lemma_lex_trans(
                                key,
                                encode_utf8(prev[p as int].month@),
                                encode_utf8(prev[i].month@),
                            );
                        }
                    }
                    assert(month_tally(seen, key) == 0) by {
                        lemma_tally_absent(seen, key, prev);
                    }
                }
                trend.insert(p, MonthCount { month, count: 1 });
                proof {
                    assert forall|i: int, j: int|
                        0 <= i < j < trend@.len() implies lex_lt(
                        encode_utf8(#[trigger] trend@[i].month@),
                        encode_utf8(#[trigger] trend@[j].month@),
                    ) by {
                        let ki = encode_utf8(trend@[i].month@);
                        let kj = encode_utf8(trend@[j].month@);
                        if j < p {
                            assert(trend@[i] == prev[i] && trend@[j] == prev[j]);
                        } else if j == p {
                            assert(trend@[i] == prev[i]);
                        } else if i == p {
                            assert(trend@[j] == prev[j - 1]);
                            if j - 1 > p {
                                assert(lex_lt(
                                    encode_utf8(prev[p as int].month@),
                                    encode_utf8(prev[j - 1].month@),
                                ));
                                lemma_lex_trans(key, encode_utf8(prev[p as int].month@), kj);
                            }
                        } else if i < p {
                            assert(trend@[i] == prev[i] && trend@[j] == prev[j - 1]);
                            assert(lex_lt(encode_utf8(prev[i].month@), encode_utf8(prev[j - 1].month@)));
                        } else {
                            assert(trend@[i] == prev[i - 1] && trend@[j] == prev[j - 1]);
                            assert(lex_lt(encode_utf8(prev[i - 1].month@), encode_utf8(prev[j - 1].month@)));
                        }
                    }
                    assert forall|i: int|
                        0 <= i < trend@.len() implies {
                        &&& #[trigger] trend@[i].count == month_tally(next, encode_utf8(trend@[i].month@))
                        &&& trend@[i].count > 0
                    } by {
                        if i != p {
                            let pi = if i < p { i } else { i - 1 };
                            assert(trend@[i] == prev[pi]);
                            assert(encode_utf8(prev[pi].month@) != key) by {
                                if pi < p {
                                    lemma_lex_irrefl(key);
                                } else {
                                    lemma_lex_irrefl(key);
                                    if pi > p {
                                        assert(lex_lt(
                                            encode_utf8(prev[p as int].month@),
                                            encode_utf8(prev[pi].month@),
                                        ));
                                        lemma_lex_trans(key, encode_utf8(prev[p as int].month@), encode_utf8(prev[pi].month@));
                                    }
                                }
                            }
                        }
                    }
                    assert forall|d: int|
                        0 <= d < next.len() && (#[trigger] month_key(next[d]@)) is Some implies exists|i: int|
                        0 <= i < trend@.len() && month_key(next[d]@) == Some(
                            encode_utf8(#[trigger] trend@[i].month@),
                        ) by {
                        if d < idx {
                            assert(next[d] == seen[d]);
                            let i = choose|i: int|
                                0 <= i < prev.len() && month_key(seen[d]@) == Some(
                                    encode_utf8(#[trigger] prev[i].month@),
                                );
                            if i < p {
                                assert(trend@[i] == prev[i]);
                                assert(month_key(next[d]@) == Some(encode_utf8(trend@[i].month@)));
                            } else {
                                assert(trend@[i + 1] == prev[i]);
                                assert(month_key(next[d]@) == Some(encode_utf8(trend@[i + 1].month@)));
                            }
                        } else {
                            assert(encode_utf8(trend@[p as int].month@) == key);
                            assert(next[d] == dates@[idx as int]);
                            assert(month_key(next[d]@) == Some(encode_utf8(trend@[p as int].month@)));
                        }
                    }
                }
            }
        } else {
            proof {
                assert(month_key(dates@[idx as int]@) is None);
                assert forall|d: int|
                    0 <= d < next.len() && (#[trigger] month_key(next[d]@)) is Some implies exists|i: int|
                    0 <= i < trend@.len() && month_key(next[d]@) == Some(
                        encode_utf8(#[trigger] trend@[i].month@),
                    ) by {
                    assert(next[d] == seen[d]);
                }
                assert forall|i: int|
                    0 <= i < trend@.len() implies {
                    &&& #[trigger] trend@[i].count == month_tally(next, encode_utf8(trend@[i].month@))
                    &&& trend@[i].count > 0
                } by {}
            }
        }
    }
    assert(dates@.take(n as int) == dates@);
    trend
}

proof fn lemma_tally_bound(dates: Seq<String>, key: Seq<u8>)
    ensures
        month_tally(dates, key) <= dates.len(),
    decreases dates.len(),
{
    if dates.len() > 0 {
        lemma_tally_bound(dates.drop_last(), key);
    }
}

proof fn lemma_tally_absent(dates: Seq<String>, key: Seq<u8>, trend: Seq<MonthCount>)
    requires
        forall|d: int|
            0 <= d < dates.len() && (#[trigger] month_key(dates[d]@)) is Some ==> exists|i: int|
                0 <= i < trend.len() && month_key(dates[d]@) == Some(encode_utf8(#[trigger] trend[i].month@)),
        forall|i: int| 0 <= i < trend.len() ==> encode_utf8(#[trigger] trend[i].month@) != key,
    ensures
        month_tally(dates, key) == 0,
    decreases dates.len(),
{
    if dates.len() > 0 {
        let rest = dates.drop_last();
        assert forall|d: int|
            0 <= d < rest.len() && (#[trigger] month_key(rest[d]@)) is Some implies exists|i: int|
            0 <= i < trend.len() && month_key(rest[d]@) == Some(encode_utf8(#[trigger] trend[i].month@)) by {
            assert(rest[d] == dates[d]);
        }
        lemma_tally_absent(rest, key, trend);
        let last = dates.len() - 1;
        if month_key(dates[last]@) == Some(key) {
            let i = choose|i: int|
                0 <= i < trend.len() && month_key(dates[last]@) == Some(encode_utf8(#[trigger] trend[i].month@));
            assert(false);
        }
    }
}

/// How many of `dates` have a month key.
pub open spec fn dated_count(dates: Seq<String>) -> nat
    decreases dates.len(),
{
    if dates.len() == 0 {
        0
    } else {
        dated_count(dates.drop_last()) + if month_key(dates.last()@) is Some {
            1nat
        } else {
            0nat
        }
    }
}

/// The sum of the counts of `trend`.
pub open spec fn trend_total(trend: Seq<MonthCount>) -> nat
    decreases trend.len(),
{
    if trend.len() == 0 {
        0
    } else {
        trend_total(trend.drop_last()) + trend.last().count as nat
    }
}

/// The sum over `keys` of how many `dates` fall in each.
spec fn tally_sum(dates: Seq<String>, keys: Seq<Seq<u8>>) -> nat
    decreases keys.len(),
{
    if keys.len() == 0 {
        0
    } else {
        tally_sum(dates, keys.drop_last()) + month_tally(dates, keys.last())
    }
}

/// The number of `keys` equal to `k`, as 0 or 1 for distinct keys.
spec fn hits(keys: Seq<Seq<u8>>, k: Option<Seq<u8>>) -> nat
    decreases keys.len(),
{
    if keys.len() == 0 {
        0
    } else {
        hits(keys.drop_last(), k) + if k == Some(keys.last()) {
            1nat
        } else {
            0nat
        }
    }
}

proof fn lemma_hits_distinct(keys: Seq<Seq<u8>>, k: Option<Seq<u8>>)
    requires
        forall|i: int, j: int| 0 <= i < j < keys.len() ==> keys[i] != keys[j],
    ensures
        hits(keys, k) == if k matches Some(x) && keys.contains(x) {
            1nat
        } else {
            0nat
        },
    decreases keys.len(),
{
    if keys.len() > 0 {
        let rest = keys.drop_last();
        assert forall|i: int, j: int| 0 <= i < j < rest.len() implies rest[i] != rest[j] by {
            assert(rest[i] == keys[i] && rest[j] == keys[j]);
        }
        lemma_hits_distinct(rest, k);
        if let Some(x) = k {
            if x == keys.last() {
                assert(keys.contains(x)) by {
                    assert(keys[keys.len() - 1] == x);
                }
                if rest.contains(x) {
                    let i = choose|i: int| 0 <= i < rest.len() && rest[i] == x;
                    assert(keys[i] == keys[keys.len() - 1]);
                }
            } else if keys.contains(x) {
                let i = choose|i: int| 0 <= i < keys.len() && keys[i] == x;
                assert(rest[i] == x);
            } else if rest.contains(x) {
                let i = choose|i: int| 0 <= i < rest.len() && rest[i] == x;
                assert(keys[i] == x);
            }
        }
    }
}

proof fn lemma_tally_sum_step(dates: Seq<String>, keys: Seq<Seq<u8>>)
    requires
        dates.len() > 0,
    ensures
        tally_sum(dates, keys) == tally_sum(dates.drop_last(), keys) + hits(
            keys,
            month_key(dates.last()@),
        ),
    decreases keys.len(),
{
    if keys.len() > 0 {
        lemma_tally_sum_step(dates, keys.drop_last());
    }
}

proof fn lemma_tally_sum_counts_all(dates: Seq<String>, keys: Seq<Seq<u8>>)
    requires
        forall|i: int, j: int| 0 <= i < j < keys.len() ==> keys[i] != keys[j],
        forall|d: int|
            0 <= d < dates.len() && (#[trigger] month_key(dates[d]@)) is Some ==> keys.contains(
                month_key(dates[d]@)->0,
            ),
    ensures
        tally_sum(dates, keys) == dated_count(dates),
    decreases dates.len(),
{
    if dates.len() == 0 {
        assert(dates =~= Seq::<String>::empty());
        lemma_tally_sum_empty(keys);
    } else {
        let rest = dates.drop_last();
        assert forall|d: int|
            0 <= d < rest.len() && (#[trigger] month_key(rest[d]@)) is Some implies keys.contains(
            month_key(rest[d]@)->0,
        ) by {
            assert(rest[d] == dates[d]);
        }
        lemma_tally_sum_counts_all(rest, keys);
        lemma_tally_sum_step(dates, keys);
        lemma_hits_distinct(keys, month_key(dates.last()@));
        if month_key(dates.last()@) is Some {
            assert(month_key(dates[dates.len() - 1]@) is Some);
        }
    }
}

proof fn lemma_tally_sum_empty(keys: Seq<Seq<u8>>)
    ensures
        tally_sum(Seq::<String>::empty(), keys) == 0,
    decreases keys.len(),
{
    if keys.len() > 0 {
        lemma_tally_sum_empty(keys.drop_last());
    }
}

proof fn lemma_total_is_tally_sum(dates: Seq<String>, trend: Seq<MonthCount>)
    requires
        forall|i: int|
            0 <= i < trend.len() ==> #[trigger] trend[i].count == month_tally(
                dates,
                encode_utf8(trend[i].month@),
            ),
    ensures
        trend_total(trend) == tally_sum(dates, trend.map_values(|m: MonthCount| encode_utf8(m.month@))),
    decreases trend.len(),
{
    if trend.len() > 0 {
        let rest = trend.drop_last();
        assert forall|i: int| 0 <= i < rest.len() implies #[trigger] rest[i].count == month_tally(
            dates,
            encode_utf8(rest[i].month@),
        ) by {
            assert(rest[i] == trend[i]);
        }
        lemma_total_is_tally_sum(dates, rest);
        let keys = trend.map_values(|m: MonthCount| encode_utf8(m.month@));
        assert(keys.drop_last() == rest.map_values(|m: MonthCount| encode_utf8(m.month@)));
        assert(trend.last() == trend[trend.len() - 1]);
    }
}

/// Law: the monthly trend counts every dated note exactly once: its counts
/// add up to the number of dates that have a month.
pub proof fn law_trend_counts_every_date(dates: Seq<String>, trend: Seq<MonthCount>)
    requires
        is_monthly_trend(dates, trend),
    ensures
        trend_total(trend) == dated_count(dates),
{
    let keys = trend.map_values(|m: MonthCount| encode_utf8(m.month@));
    lemma_total_is_tally_sum(dates, trend);
    assert forall|i: int, j: int| 0 <= i < j < keys.len() implies keys[i] != keys[j] by {
        assert(lex_lt(encode_utf8(trend[i].month@), encode_utf8(trend[j].month@)));
        lemma_lex_irrefl(keys[i]);
    }
    assert forall|d: int|
        0 <= d < dates.len() && (#[trigger] month_key(dates[d]@)) is Some implies keys.contains(
        month_key(dates[d]@)->0,
    ) by {
        let i = choose|i: int|
            0 <= i < trend.len() && month_key(dates[d]@) == Some(encode_utf8(#[trigger] trend[i].month@));
        assert(keys[i] == encode_utf8(trend[i].month@));
    }
    lemma_tally_sum_counts_all(dates, keys);
}

} // verus!
