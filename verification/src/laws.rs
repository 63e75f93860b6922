use vstd::prelude::*;
use vstd::arithmetic::div_mod::{lemma_fundamental_div_mod, lemma_mod_mod};

use crate::duration::Duration;
use crate::format::{
    human_bytes, human_toks, join_sp, tok_bytes, toks_bytes, toks_sum, unit_bytes, unit_val, Unit,
};
use crate::parse::{parse_from, scan_alpha, scan_digits, skip_ws, unit_ms, Parsed};
use crate::text::{
    chars_of, dec, digits_val, is_alpha, is_digit, is_ws, lemma_dec_digits, lemma_digits_val_dec,
    lower, to_lower,
};

verus! {

proof fn lemma_skip_ws_run(s: Seq<u8>, i: nat, j: nat)
    requires
        i <= j <= s.len(),
        forall|t: int| i <= t < j ==> is_ws(#[trigger] s[t]),
        j == s.len() || !is_ws(s[j as int]),
    ensures
        skip_ws(s, i) == j,
    decreases j - i,
{
    if i < j {
        lemma_skip_ws_run(s, i + 1, j);
    }
}

proof fn lemma_scan_digits_run(s: Seq<u8>, i: nat, j: nat)
    requires
        i <= j <= s.len(),
        forall|t: int| i <= t < j ==> is_digit(#[trigger] s[t]),
        j == s.len() || !is_digit(s[j as int]),
    ensures
        scan_digits(s, i) == j,
    decreases j - i,
{
    if i < j {
        lemma_scan_digits_run(s, i + 1, j);
    }
}

proof fn lemma_scan_alpha_run(s: Seq<u8>, i: nat, j: nat)
    requires
        i <= j <= s.len(),
        forall|t: int| i <= t < j ==> is_alpha(#[trigger] s[t]),
        j == s.len() || !is_alpha(s[j as int]),
    ensures
        scan_alpha(s, i) == j,
    decreases j - i,
{
    if i < j {
        lemma_scan_alpha_run(s, i + 1, j);
    }
}

/// The unit texts the formatter writes are exactly what the tokenizer's
/// unit table recognizes, at the formatter's unit values.
proof fn lemma_unit_token(u: Unit)
    ensures
        1 <= unit_bytes(u).len() <= 2,
        forall|t: int|
            0 <= t < unit_bytes(u).len() ==> {
                &&& is_alpha(#[trigger] unit_bytes(u)[t])
                &&& !is_digit(unit_bytes(u)[t])
                &&& !is_ws(unit_bytes(u)[t])
                &&& to_lower(unit_bytes(u)[t]) == unit_bytes(u)[t]
            },
        lower(unit_bytes(u)) == unit_bytes(u),
        unit_ms(unit_bytes(u)) == Some(unit_val(u)),
        unit_val(u) >= 1,
{
    assert(lower(unit_bytes(u)) =~= unit_bytes(u));
    lemma_unit_literals();
    let b = unit_bytes(u);
    match u {
        Unit::Day => {
            assert(b == seq![100u8] && b.len() == 1 && b[0] == 100);
        },
        Unit::Hour => {
            assert(b == seq![104u8] && b.len() == 1 && b[0] == 104);
        },
        Unit::Min => {
            assert(b == seq![109u8] && b.len() == 1 && b[0] == 109);
        },
        Unit::Sec => {
            assert(b == seq![115u8] && b.len() == 1 && b[0] == 115);
        },
        Unit::Milli => {
            assert(b == seq![109u8, 115u8] && b.len() == 2 && b[0] == 109 && b[1] == 115);
        },
    }
}

/// The lengths and bytes of the five unit texts in the tokenizer's table.
proof fn lemma_unit_literals()
    ensures
        seq![100u8].len() == 1 && seq![100u8][0] == 100,
        seq![104u8].len() == 1 && seq![104u8][0] == 104,
        seq![109u8, 115u8].len() == 2 && seq![109u8, 115u8][0] == 109 && seq![109u8, 115u8][1]
            == 115,
        seq![109u8].len() == 1 && seq![109u8][0] == 109,
        seq![115u8].len() == 1 && seq![115u8][0] == 115,
{
}

proof fn lemma_toks_sum_nonneg(ts: Seq<(nat, Unit)>)
    ensures
        toks_sum(ts) >= 0,
    decreases ts.len(),
{
    if ts.len() > 0 {
        lemma_toks_sum_nonneg(ts.drop_last());
        lemma_unit_token(ts.last().1);
        assert(ts.last().0 * unit_val(ts.last().1) >= 0) by (nonlinear_arith)
            requires
                ts.last().0 >= 0,
                unit_val(ts.last().1) >= 1,
        ;
    }
}

proof fn lemma_toks_sum_first(ts: Seq<(nat, Unit)>)
    requires
        ts.len() > 0,
    ensures
        toks_sum(ts) == ts[0].0 * unit_val(ts[0].1) + toks_sum(ts.drop_first()),
    decreases ts.len(),
{
    if ts.len() == 1 {
        assert(ts.drop_last() =~= Seq::<(nat, Unit)>::empty());
        assert(ts.drop_first() =~= Seq::<(nat, Unit)>::empty());
        assert(ts.last() == ts[0]);
    } else {
        lemma_toks_sum_first(ts.drop_last());
        assert(ts.drop_last().drop_first() =~= ts.drop_first().drop_last());
        assert(ts.drop_last()[0] == ts[0]);
        assert(ts.drop_first().last() == ts.last());
    }
}

proof fn lemma_toks_sum_concat(a: Seq<(nat, Unit)>, b: Seq<(nat, Unit)>)
    ensures
        toks_sum(a + b) == toks_sum(a) + toks_sum(b),
    decreases b.len(),
{
    if b.len() == 0 {
        assert(a + b =~= a);
    } else {
        lemma_toks_sum_concat(a, b.drop_last());
        assert((a + b).drop_last() =~= a + b.drop_last());
        assert((a + b).last() == b.last());
    }
}

/// Whitespace bytes only.
pub open spec fn all_ws(w: Seq<u8>) -> bool {
    forall|t: int| 0 <= t < w.len() ==> is_ws(#[trigger] w[t])
}

/// A token list rendered with an arbitrary whitespace run after each
/// component; any run, the last included, may be empty.
pub open spec fn join_with(ts: Seq<(nat, Unit)>, seps: Seq<Seq<u8>>) -> Seq<u8>
    decreases ts.len(),
{
    if ts.len() == 0 {
        Seq::empty()
    } else {
        tok_bytes(ts[0]) + seps[0] + join_with(ts.drop_first(), seps.drop_first())
    }
}

/// A token list's text under arbitrary whitespace separators, fed to the
/// tokenizer at position `i` with `total` and `count` already
/// accumulated, parses to the full sum.
proof fn lemma_parse_join_ws(
    s: Seq<u8>,
    i: nat,
    ts: Seq<(nat, Unit)>,
    seps: Seq<Seq<u8>>,
    total: int,
    count: nat,
)
    requires
        i <= s.len(),
        ts.len() > 0,
        seps.len() == ts.len(),
        forall|k: int| 0 <= k < seps.len() ==> all_ws(#[trigger] seps[k]),
        s.subrange(i as int, s.len() as int) == join_with(ts, seps),
        total >= 0,
        total + toks_sum(ts) <= u64::MAX,
    ensures
        parse_from(s, i, total, count) == Parsed::Value(total + toks_sum(ts)),
    decreases ts.len(),
{
    let tail = s.subrange(i as int, s.len() as int);
    let n = ts[0].0;
    let u = ts[0].1;
    let db = dec(n);
    let ub = unit_bytes(u);
    let m = unit_val(u);
    let w = seps[0];
    lemma_dec_digits(n);
    lemma_digits_val_dec(n);
    lemma_unit_token(u);
    lemma_toks_sum_first(ts);
    lemma_toks_sum_nonneg(ts.drop_first());
    assert(n * m >= n && n * m >= 0) by (nonlinear_arith)
        requires
            n >= 0,
            m >= 1,
    ;
    let rest = ts.drop_first();
    let rseps = seps.drop_first();
    let rj = join_with(rest, rseps);
    assert(tok_bytes(ts[0]) == db + ub);
    assert(tail == (db + ub) + w + rj);
    let dn: nat = i + db.len();
    let ue: nat = dn + ub.len();
    let wend: nat = ue + w.len();
    assert(tail.len() == db.len() + ub.len() + w.len() + rj.len());
    assert(wend <= s.len());
    assert forall|t: int| i <= t < dn implies is_digit(#[trigger] s[t]) && !is_ws(s[t]) by {
        assert(s[t] == tail[t - i]);
        assert(tail[t - i] == db[t - i]);
    }
    assert forall|t: int| dn <= t < ue implies is_alpha(#[trigger] s[t]) && !is_ws(s[t])
        && !is_digit(s[t]) by {
        assert(s[t] == tail[t - i]);
        assert(tail[t - i] == ub[t - i - db.len()]);
    }
    assert forall|t: int| ue <= t < wend implies is_ws(#[trigger] s[t]) by {
        assert(s[t] == tail[t - i]);
        assert(tail[t - i] == w[t - i - db.len() - ub.len()]);
    }
    if rest.len() > 0 {
        lemma_dec_digits(rest[0].0);
        assert(rj == tok_bytes(rest[0]) + rseps[0] + join_with(rest.drop_first(), rseps.drop_first()));
        assert(rj.len() > 0 && rj[0] == dec(rest[0].0)[0]) by {
            assert(tok_bytes(rest[0])[0] == dec(rest[0].0)[0]);
        }
        assert(is_digit(rj[0]) && !is_ws(rj[0]) && !is_alpha(rj[0]));
        assert(s[wend as int] == tail[wend - i]);
        assert(tail[wend - i] == rj[0]);
    } else {
        assert(rj =~= Seq::<u8>::empty());
        assert(wend == s.len());
    }
    // the whitespace skip stops at once, the digit scan takes exactly the
    // digits, the unit scan exactly the unit letters
    lemma_skip_ws_run(s, i, i);
    lemma_scan_digits_run(s, i, dn);
    assert(s.subrange(i as int, dn as int) =~= db);
    assert(digits_val(s.subrange(i as int, dn as int)) == n);
    lemma_skip_ws_run(s, dn, dn);
    lemma_scan_alpha_run(s, dn, ue);
    assert forall|k: int| 0 <= k < ub.len() implies s.subrange(dn as int, ue as int)[k]
        == ub[k] by {
        assert(s.subrange(dn as int, ue as int)[k] == s[dn + k]);
        assert(s[dn + k] == tail[dn + k - i]);
        assert(tail[dn + k - i] == ub[k]);
    }
    assert(s.subrange(dn as int, ue as int) =~= ub);
    assert(lower(s.subrange(dn as int, ue as int)) == ub);
    assert(unit_ms(lower(s.subrange(dn as int, ue as int))) == Some(m));
    assert(n <= u128::MAX && n * m <= u128::MAX && total + n * m <= u128::MAX);
    assert(parse_from(s, i, total, count) == parse_from(s, ue, total + n * m, count + 1));
    // the whitespace run after the unit is skipped in one stride
    lemma_skip_ws_run(s, ue, wend);
    crate::parse::lemma_parse_from_skip(s, ue, total + n * m, count + 1);
    assert(parse_from(s, ue, total + n * m, count + 1) == parse_from(
        s,
        wend,
        total + n * m,
        count + 1,
    ));
    if rest.len() == 0 {
        assert(toks_sum(rest) == 0);
        assert(skip_ws(s, wend) == wend);
        assert(parse_from(s, wend, total + n * m, count + 1) == Parsed::Value(total + n * m));
    } else {
        assert forall|k: int| 0 <= k < rj.len() implies s.subrange(
            wend as int,
            s.len() as int,
        )[k] == rj[k] by {
            assert(s.subrange(wend as int, s.len() as int)[k] == s[wend + k]);
            assert(s[wend + k] == tail[wend + k - i]);
            assert(tail[wend + k - i] == rj[k]);
        }
        assert(s.subrange(wend as int, s.len() as int) =~= rj);
        assert forall|k: int| 0 <= k < rseps.len() implies all_ws(#[trigger] rseps[k]) by {
            assert(rseps[k] == seps[k + 1]);
        }
        lemma_parse_join_ws(s, wend, rest, rseps, total + n * m, count + 1);
    }
}

/// The canonical separators: one space after every component but the last.
pub open spec fn single_space_seps(n: nat) -> Seq<Seq<u8>> {
    Seq::new(n, |k: int| if k < n - 1 { seq![32u8] } else { Seq::<u8>::empty() })
}

/// The space-joined rendering is the whitespace-separated rendering at
/// the canonical separators.
proof fn lemma_join_sp_canonical(ts: Seq<(nat, Unit)>)
    ensures
        join_sp(toks_bytes(ts)) == join_with(ts, single_space_seps(ts.len())),
    decreases ts.len(),
{
    let seps = single_space_seps(ts.len());
    if ts.len() == 0 {
        assert(join_sp(toks_bytes(ts)) =~= join_with(ts, seps));
    } else if ts.len() == 1 {
        assert(join_sp(toks_bytes(ts)) == toks_bytes(ts)[0]);
        assert(toks_bytes(ts)[0] == tok_bytes(ts[0]));
        assert(seps[0] =~= Seq::<u8>::empty());
        assert(join_with(ts.drop_first(), seps.drop_first()) =~= Seq::<u8>::empty());
        assert(join_sp(toks_bytes(ts)) =~= join_with(ts, seps));
    } else {
        lemma_join_sp_canonical(ts.drop_first());
        assert(toks_bytes(ts).drop_first() =~= toks_bytes(ts.drop_first()));
        assert(seps.drop_first() =~= single_space_seps((ts.len() - 1) as nat));
        assert(seps[0] =~= seq![32u8]);
        assert(toks_bytes(ts)[0] == tok_bytes(ts[0]));
        assert(join_sp(toks_bytes(ts)) =~= join_with(ts, seps));
    }
}

/// A token list's space-joined text, fed to the tokenizer at position `i`
/// with `total` and `count` already accumulated, parses to the full sum.
proof fn lemma_parse_join(s: Seq<u8>, i: nat, ts: Seq<(nat, Unit)>, total: int, count: nat)
    requires
        i <= s.len(),
        ts.len() > 0,
        s.subrange(i as int, s.len() as int) == join_sp(toks_bytes(ts)),
        total >= 0,
        total + toks_sum(ts) <= u64::MAX,
    ensures
        parse_from(s, i, total, count) == Parsed::Value(total + toks_sum(ts)),
{
    lemma_join_sp_canonical(ts);
    let seps = single_space_seps(ts.len());
    assert forall|k: int| 0 <= k < seps.len() implies all_ws(#[trigger] seps[k]) by {
        if k < ts.len() - 1 {
            assert(seps[k] == seq![32u8]);
            assert forall|t: int| 0 <= t < seps[k].len() implies is_ws(#[trigger] seps[k][t]) by {
                assert(seps[k][t] == 32);
            }
        }
    }
    lemma_parse_join_ws(s, i, ts, seps, total, count);
}

/// Law: the human rendering is lossless at millisecond resolution — the
/// tokenizer reads the canonical human text of any representable
/// millisecond total back to exactly that total.
pub proof fn lemma_human_round_trip(ms: u64)
    ensures
        parse_from(human_bytes(ms as int), 0, 0, 0) == Parsed::Value(ms as int),
{
    if ms == 0 {
        let s = human_bytes(0);
        assert(s == seq![48u8, 115u8]);
        assert(is_digit(s[0]) && !is_ws(s[0]));
        assert(skip_ws(s, 0) == 0);
        assert(scan_digits(s, 2) == 2);
        assert(scan_digits(s, 1) == 1);
        assert(scan_digits(s, 0) == 1);
        assert(s.subrange(0, 1) =~= seq![48u8]);
        assert(digits_val(Seq::<u8>::empty()) == 0);
        assert(seq![48u8].drop_last() =~= Seq::<u8>::empty());
        assert(digits_val(seq![48u8]) == 0);
        assert(skip_ws(s, 1) == 1);
        assert(scan_alpha(s, 2) == 2);
        assert(scan_alpha(s, 1) == 2);
        assert(s.subrange(1, 2) =~= seq![115u8]);
        assert(lower(seq![115u8]) =~= seq![115u8]);
        lemma_unit_literals();
        assert(unit_ms(seq![115u8]) == Some(1_000int));
        assert(skip_ws(s, 2) == 2);
        assert(parse_from(s, 2, 0, 1) == Parsed::Value(0));
        assert(parse_from(s, 0, 0, 0) == Parsed::Value(0));
    } else {
        let msi = ms as int;
        let ts = human_toks(msi);
        lemma_human_toks_sum(ms);
        let s = human_bytes(msi);
        assert(s == join_sp(toks_bytes(ts)));
        assert(s.subrange(0, s.len() as int) =~= s);
        lemma_parse_join(s, 0, ts, 0, 0);
    }
}

/// The components the human formatter picks add back up to the whole:
/// greedy decomposition loses nothing.
proof fn lemma_human_toks_sum(ms: u64)
    requires
        ms > 0,
    ensures
        human_toks(ms as int).len() > 0,
        toks_sum(human_toks(ms as int)) == ms,
{
    let msi = ms as int;
    let d = msi / 86_400_000;
    let h = (msi % 86_400_000) / 3_600_000;
    let m = (msi % 3_600_000) / 60_000;
    let sc = (msi % 60_000) / 1_000;
    let r = msi % 1_000;
    lemma_fundamental_div_mod(msi, 86_400_000);
    lemma_fundamental_div_mod(msi % 86_400_000, 3_600_000);
    lemma_fundamental_div_mod(msi % 3_600_000, 60_000);
    lemma_fundamental_div_mod(msi % 60_000, 1_000);
    assert((msi % 86_400_000) % 3_600_000 == msi % 3_600_000) by {
        lemma_mod_mod(msi, 3_600_000, 24);
        assert(3_600_000 * 24 == 86_400_000);
    }
    assert((msi % 3_600_000) % 60_000 == msi % 60_000) by {
        lemma_mod_mod(msi, 60_000, 60);
        assert(60_000 * 60 == 3_600_000);
    }
    assert((msi % 60_000) % 1_000 == msi % 1_000) by {
        lemma_mod_mod(msi, 1_000, 60);
        assert(1_000 * 60 == 60_000);
    }
    assert(msi == d * 86_400_000 + h * 3_600_000 + m * 60_000 + sc * 1_000 + r);
    let t0 = Seq::<(nat, Unit)>::empty();
    let t1 = if d > 0 {
        t0.push(((d as nat), Unit::Day))
    } else {
        t0
    };
    let t2 = if h > 0 {
        t1.push(((h as nat), Unit::Hour))
    } else {
        t1
    };
    let t3 = if m > 0 {
        t2.push(((m as nat), Unit::Min))
    } else {
        t2
    };
    let t4 = if sc > 0 {
        t3.push(((sc as nat), Unit::Sec))
    } else {
        t3
    };
    let t5 = if r > 0 {
        t4.push(((r as nat), Unit::Milli))
    } else {
        t4
    };
    assert(human_toks(msi) == t5);
    assert(toks_sum(t0) == 0);
    assert(toks_sum(t1) == d * 86_400_000) by {
        if d > 0 {
            assert(t1.drop_last() =~= t0);
        }
    }
    assert(toks_sum(t2) == toks_sum(t1) + h * 3_600_000) by {
        if h > 0 {
            assert(t2.drop_last() =~= t1);
        }
    }
    assert(toks_sum(t3) == toks_sum(t2) + m * 60_000) by {
        if m > 0 {
            assert(t3.drop_last() =~= t2);
        }
    }
    assert(toks_sum(t4) == toks_sum(t3) + sc * 1_000) by {
        if sc > 0 {
            assert(t4.drop_last() =~= t3);
        }
    }
    assert(toks_sum(t5) == toks_sum(t4) + r) by {
        if r > 0 {
            assert(t5.drop_last() =~= t4);
        }
    }
    assert(t5.len() > 0) by {
        if d == 0 && h == 0 && m == 0 && sc == 0 && r == 0 {
            assert(msi == 0);
        }
    }
}

proof fn lemma_toks_sum_remove(b: Seq<(nat, Unit)>, j: int)
    requires
        0 <= j < b.len(),
    ensures
        toks_sum(b) == toks_sum(b.remove(j)) + b[j].0 * unit_val(b[j].1),
    decreases b.len(),
{
    if j == b.len() - 1 {
        assert(b.remove(j) =~= b.drop_last());
        assert(b[j] == b.last());
    } else {
        lemma_toks_sum_remove(b.drop_last(), j);
        assert(b.remove(j).drop_last() =~= b.drop_last().remove(j));
        assert(b.remove(j).last() == b.last());
        assert(b.drop_last()[j] == b[j]);
    }
}

/// A component list's millisecond total depends only on which components
/// it holds, not on their order.
proof fn lemma_toks_sum_permutation(a: Seq<(nat, Unit)>, b: Seq<(nat, Unit)>)
    requires
        a.to_multiset() == b.to_multiset(),
    ensures
        toks_sum(a) == toks_sum(b),
    decreases a.len(),
{
    broadcast use vstd::seq_lib::group_to_multiset_ensures;

    assert(a.to_multiset().len() == a.len());
    assert(b.to_multiset().len() == b.len());
    if a.len() == 0 {
        assert(b.len() == 0);
    } else {
        let x = a.last();
        assert(a.contains(x)) by {
            assert(a[a.len() - 1] == x);
        }
        assert(b.to_multiset().count(x) > 0);
        assert(b.contains(x));
        let j = choose|i: int| 0 <= i < b.len() && b[i] == x;
        lemma_toks_sum_remove(b, j);
        assert(a.remove(a.len() - 1) =~= a.drop_last());
        assert(a.drop_last().to_multiset() =~= a.to_multiset().remove(x));
        assert(b.remove(j).to_multiset() =~= b.to_multiset().remove(x));
        lemma_toks_sum_permutation(a.drop_last(), b.remove(j));
    }
}

/// Law: token order is irrelevant — two component lists holding the same
/// components, in any order, parse (joined into unit strings) to the same
/// millisecond total.
pub proof fn lemma_parse_token_permutation(ts1: Seq<(nat, Unit)>, ts2: Seq<(nat, Unit)>)
    requires
        ts1.len() > 0,
        ts1.to_multiset() == ts2.to_multiset(),
        toks_sum(ts1) <= u64::MAX,
    ensures
        parse_from(join_sp(toks_bytes(ts1)), 0, 0, 0) == Parsed::Value(toks_sum(ts1)),
        parse_from(join_sp(toks_bytes(ts2)), 0, 0, 0) == parse_from(
            join_sp(toks_bytes(ts1)),
            0,
            0,
            0,
        ),
{
    broadcast use vstd::seq_lib::group_to_multiset_ensures;

    lemma_toks_sum_permutation(ts1, ts2);
    lemma_toks_sum_nonneg(ts1);
    assert(ts1.to_multiset().len() == ts1.len());
    assert(ts2.to_multiset().len() == ts2.len());
    assert(ts2.len() == ts1.len());
    let s1 = join_sp(toks_bytes(ts1));
    let s2 = join_sp(toks_bytes(ts2));
    assert(s1.subrange(0, s1.len() as int) =~= s1);
    assert(s2.subrange(0, s2.len() as int) =~= s2);
    lemma_parse_join(s1, 0, ts1, 0, 0);
    lemma_parse_join(s2, 0, ts2, 0, 0);
}

/// Law: token order is irrelevant under optional whitespace — two lists
/// holding the same components, in any order, each rendered with an
/// arbitrary (possibly empty) whitespace run after every component, parse
/// to the same millisecond total.
pub proof fn lemma_parse_token_permutation_ws(
    ts1: Seq<(nat, Unit)>,
    seps1: Seq<Seq<u8>>,
    ts2: Seq<(nat, Unit)>,
    seps2: Seq<Seq<u8>>,
)
    requires
        ts1.len() > 0,
        seps1.len() == ts1.len(),
        seps2.len() == ts2.len(),
        forall|k: int| 0 <= k < seps1.len() ==> all_ws(#[trigger] seps1[k]),
        forall|k: int| 0 <= k < seps2.len() ==> all_ws(#[trigger] seps2[k]),
        ts1.to_multiset() == ts2.to_multiset(),
        toks_sum(ts1) <= u64::MAX,
    ensures
        parse_from(join_with(ts1, seps1), 0, 0, 0) == Parsed::Value(toks_sum(ts1)),
        parse_from(join_with(ts2, seps2), 0, 0, 0) == parse_from(
            join_with(ts1, seps1),
            0,
            0,
            0,
        ),
{
    broadcast use vstd::seq_lib::group_to_multiset_ensures;

    lemma_toks_sum_permutation(ts1, ts2);
    lemma_toks_sum_nonneg(ts1);
    assert(ts1.to_multiset().len() == ts1.len());
    assert(ts2.to_multiset().len() == ts2.len());
    assert(ts2.len() == ts1.len());
    let s1 = join_with(ts1, seps1);
    let s2 = join_with(ts2, seps2);
    assert(s1.subrange(0, s1.len() as int) =~= s1);
    assert(s2.subrange(0, s2.len() as int) =~= s2);
    lemma_parse_join_ws(s1, 0, ts1, seps1, 0, 0);
    lemma_parse_join_ws(s2, 0, ts2, seps2, 0, 0);
}

/// Law, in the shape of the two-run swap: appending two runs of
/// components in either order parses to the same millisecond total.
pub proof fn lemma_parse_token_order(ts1: Seq<(nat, Unit)>, ts2: Seq<(nat, Unit)>)
    requires
        ts1.len() > 0,
        ts2.len() > 0,
        toks_sum(ts1) + toks_sum(ts2) <= u64::MAX,
    ensures
        parse_from(join_sp(toks_bytes(ts1 + ts2)), 0, 0, 0) == parse_from(
            join_sp(toks_bytes(ts2 + ts1)),
            0,
            0,
            0,
        ),
        parse_from(join_sp(toks_bytes(ts1 + ts2)), 0, 0, 0) == Parsed::Value(
            toks_sum(ts1) + toks_sum(ts2),
        ),
{
    lemma_toks_sum_concat(ts1, ts2);
    vstd::seq_lib::lemma_seq_union_to_multiset_commutative(ts1, ts2);
    lemma_parse_token_permutation(ts1 + ts2, ts2 + ts1);
}

/// Every byte inside a joined component list is ASCII.
proof fn lemma_join_ascii(ps: Seq<Seq<u8>>)
    requires
        forall|i: int, t: int|
            0 <= i < ps.len() && 0 <= t < ps[i].len() ==> (#[trigger] ps[i][t]) < 128,
    ensures
        forall|t: int| 0 <= t < join_sp(ps).len() ==> (#[trigger] join_sp(ps)[t]) < 128,
    decreases ps.len(),
{
    if ps.len() <= 1 {
        assert forall|t: int| 0 <= t < join_sp(ps).len() implies join_sp(ps)[t] < 128 by {
            assert(join_sp(ps)[t] == ps[0][t]);
        }
    } else {
        let rest = ps.drop_first();
        lemma_join_ascii(rest);
        assert forall|t: int| 0 <= t < join_sp(ps).len() implies join_sp(ps)[t] < 128 by {
            if t < ps[0].len() {
                assert(join_sp(ps)[t] == ps[0][t]);
            } else if t == ps[0].len() {
                assert(join_sp(ps)[t] == 32);
            } else {
                assert(join_sp(ps)[t] == join_sp(rest)[t - ps[0].len() - 1]);
            }
        }
    }
}

/// Every byte the human formatter emits is ASCII: digits, unit letters
/// and single spaces only.
proof fn lemma_human_bytes_ascii(ms: int)
    ensures
        forall|t: int|
            0 <= t < human_bytes(ms).len() ==> (#[trigger] human_bytes(ms)[t]) < 128,
{
    if ms == 0 {
    } else {
        let ps = toks_bytes(human_toks(ms));
        assert forall|i: int, t: int|
            0 <= i < ps.len() && 0 <= t < ps[i].len() implies (#[trigger] ps[i][t]) < 128 by {
            let tok = human_toks(ms)[i];
            assert(ps[i] == tok_bytes(tok));
            lemma_dec_digits(tok.0);
            lemma_unit_token(tok.1);
            if t < dec(tok.0).len() {
                assert(ps[i][t] == dec(tok.0)[t]);
            } else {
                assert(ps[i][t] == unit_bytes(tok.1)[t - dec(tok.0).len()]);
            }
        }
        lemma_join_ascii(ps);
    }
}

/// Law, at the text boundary: the parser, applied to the exact character
/// text the human formatter emits, reads back the formatted value.
pub proof fn lemma_human_text_round_trip(ms: u64, t: Seq<char>)
    requires
        t == chars_of(human_bytes(ms as int)),
    ensures
        vstd::utf8::encode_utf8(t) == human_bytes(ms as int),
        parse_from(vstd::utf8::encode_utf8(t), 0, 0, 0) == Parsed::Value(ms as int),
{
    let hb = human_bytes(ms as int);
    lemma_human_bytes_ascii(ms as int);
    assert(vstd::utf8::is_ascii_chars(t)) by {
        assert forall|i: int| 0 <= i < t.len() implies '\0' <= (#[trigger] t[i])
            <= '\u{7f}' by {
            assert(t[i] == hb[i] as char);
            assert(hb[i] < 128);
        }
    }
    vstd::utf8::is_ascii_chars_encode_utf8(t);
    assert(vstd::utf8::encode_utf8(t) =~= hb);
    lemma_human_round_trip(ms);
}

/// Law: an integer input denotes exactly that many whole seconds, which
/// the seconds formatter reads back unchanged and which stand for
/// `n * 1000` milliseconds.
pub proof fn lemma_int_secs_round_trip(n: u64, d: Duration)
    requires
        d.secs == n,
        d.nanos == 0,
    ensures
        d.wf(),
        d.millis_rounded() == n * 1000,
        d.millis_rounded() / 1000 == n,
{
}

/// Law: formatting is a pure function of the value — two renderings of
/// equal millisecond totals are identical.
pub proof fn lemma_format_pure(a: Seq<char>, b: Seq<char>, ms: int)
    requires
        a == chars_of(human_bytes(ms)),
        b == chars_of(human_bytes(ms)),
    ensures
        a == b,
{
}

} // verus!
