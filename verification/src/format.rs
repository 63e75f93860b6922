use vstd::prelude::*;
use vstd::string::StringExecFns;

use crate::duration::Duration;
use crate::errors::FormatError;
use crate::text::{chars_of, dec, is_digit, lemma_dec_digits, push_dec, string_from_ascii};

verus! {

/// The units the human formatter emits, largest first.
pub enum Unit {
    Day,
    Hour,
    Min,
    Sec,
    Milli,
}

/// The byte text of a unit, as the human formatter writes it.
pub open spec fn unit_bytes(u: Unit) -> Seq<u8> {
    match u {
        Unit::Day => seq![100u8],
        Unit::Hour => seq![104u8],
        Unit::Min => seq![109u8],
        Unit::Sec => seq![115u8],
        Unit::Milli => seq![109u8, 115u8],
    }
}

/// Milliseconds per unit.
pub open spec fn unit_val(u: Unit) -> int {
    match u {
        Unit::Day => 86_400_000,
        Unit::Hour => 3_600_000,
        Unit::Min => 60_000,
        Unit::Sec => 1_000,
        Unit::Milli => 1,
    }
}

/// The byte text of one (number, unit) component.
pub open spec fn tok_bytes(t: (nat, Unit)) -> Seq<u8> {
    dec(t.0) + unit_bytes(t.1)
}

pub open spec fn toks_bytes(ts: Seq<(nat, Unit)>) -> Seq<Seq<u8>> {
    ts.map(|_i: int, t: (nat, Unit)| tok_bytes(t))
}

/// The millisecond total that a list of components denotes.
pub open spec fn toks_sum(ts: Seq<(nat, Unit)>) -> int
    decreases ts.len(),
{
    if ts.len() == 0 {
        0
    } else {
        toks_sum(ts.drop_last()) + ts.last().0 * unit_val(ts.last().1)
    }
}

/// Pieces joined by single spaces.
pub open spec fn join_sp(ps: Seq<Seq<u8>>) -> Seq<u8>
    decreases ps.len(),
{
    if ps.len() == 0 {
        Seq::empty()
    } else if ps.len() == 1 {
        ps[0]
    } else {
        ps[0] + seq![32u8] + join_sp(ps.drop_first())
    }
}

pub proof fn lemma_join_snoc(ps: Seq<Seq<u8>>, p: Seq<u8>)
    ensures
        join_sp(ps.push(p)) == if ps.len() == 0 {
            p
        } else {
            join_sp(ps) + seq![32u8] + p
        },
    decreases ps.len(),
{
    if ps.len() == 0 {
        assert(ps.push(p)[0] == p);
    } else if ps.len() == 1 {
        assert(ps.push(p).drop_first() =~= Seq::<Seq<u8>>::empty().push(p));
        lemma_join_snoc(Seq::<Seq<u8>>::empty(), p);
        assert(ps.push(p)[0] == ps[0]);
    } else {
        lemma_join_snoc(ps.drop_first(), p);
        assert(ps.push(p).drop_first() =~= ps.drop_first().push(p));
        assert(ps.push(p)[0] == ps[0]);
        assert(ps[0] + seq![32u8] + (join_sp(ps.drop_first()) + seq![32u8] + p) =~= (ps[0]
            + seq![32u8] + join_sp(ps.drop_first())) + seq![32u8] + p);
    }
}

/// The nonzero components of `ms`, decomposed greedily largest unit first,
/// in the fixed order day, hour, minute, second, millisecond.
pub open spec fn human_toks(ms: int) -> Seq<(nat, Unit)> {
    let t0 = Seq::<(nat, Unit)>::empty();
    let t1 = if ms / 86_400_000 > 0 {
        t0.push((((ms / 86_400_000) as nat), Unit::Day))
    } else {
        t0
    };
    let t2 = if (ms % 86_400_000) / 3_600_000 > 0 {
        t1.push(((((ms % 86_400_000) / 3_600_000) as nat), Unit::Hour))
    } else {
        t1
    };
    let t3 = if (ms % 3_600_000) / 60_000 > 0 {
        t2.push(((((ms % 3_600_000) / 60_000) as nat), Unit::Min))
    } else {
        t2
    };
    let t4 = if (ms % 60_000) / 1_000 > 0 {
        t3.push(((((ms % 60_000) / 1_000) as nat), Unit::Sec))
    } else {
        t3
    };
    if ms % 1_000 > 0 {
        t4.push((((ms % 1_000) as nat), Unit::Milli))
    } else {
        t4
    }
}

/// The canonical human rendering of a millisecond total: its nonzero
/// components joined by single spaces, or `0s` for the zero duration.
pub open spec fn human_bytes(ms: int) -> Seq<u8> {
    if ms == 0 {
        seq![48u8, 115u8]
    } else {
        join_sp(toks_bytes(human_toks(ms)))
    }
}

/// Appends one nonzero component to the byte text under construction,
/// separated from what is already there by a single space.
fn push_component(out: &mut Vec<u8>, toks: Ghost<Seq<(nat, Unit)>>, n: u64, u: Unit) -> (r: Ghost<
    Seq<(nat, Unit)>,
>)
    requires
        old(out)@ == join_sp(toks_bytes(toks@)),
        (toks@.len() == 0) <==> (old(out)@.len() == 0),
        forall|t: int| 0 <= t < old(out)@.len() ==> #[trigger] old(out)@[t] < 128,
    ensures
        r@ == toks@.push(((n as nat), u)),
        final(out)@ == join_sp(toks_bytes(r@)),
        final(out)@.len() > 0,
        forall|t: int| 0 <= t < final(out)@.len() ==> #[trigger] final(out)@[t] < 128,
{
    if out.len() > 0 {
        out.push(32);
    }
    push_dec(out, n);
    match u {
        Unit::Day => out.push(100),
        Unit::Hour => out.push(104),
        Unit::Min => out.push(109),
        Unit::Sec => out.push(115),
        Unit::Milli => {
            out.push(109);
            out.push(115);
        },
    }
    proof {
        let t = ((n as nat), u);
        lemma_dec_digits(n as nat);
        lemma_join_snoc(toks_bytes(toks@), tok_bytes(t));
        assert(toks_bytes(toks@.push(t)) =~= toks_bytes(toks@).push(tok_bytes(t)));
        assert(final(out)@ =~= join_sp(toks_bytes(toks@.push(t))));
    }
    Ghost(toks@.push(((n as nat), u)))
}

/// Builds the canonical human string of a duration, rounded to the
/// nearest whole millisecond first: units d/h/m/s/ms, nonzero components
/// only, single spaces, `"0s"` for zero.
pub fn to_human_string(dur: &Duration) -> (r: String)
    requires
        dur.wf(),
    ensures
        r@ == chars_of(human_bytes(dur.millis_rounded())),
{
    let ms_total: u128 = (dur.as_secs() as u128) * 1000 + ((dur.subsec_nanos() as u128 + 500_000)
        / 1_000_000);
    let ghost ms: int = dur.millis_rounded();
    proof {
        assert(ms_total == ms);
    }
    if ms_total == 0 {
        let r = String::from_str("0s");
        proof {
            reveal_strlit("0s");
            assert(r@ =~= chars_of(human_bytes(0)));
        }
        return r;
    }
    let dd: u64 = (ms_total / 86_400_000) as u64;
    let hh: u64 = ((ms_total % 86_400_000) / 3_600_000) as u64;
    let mm: u64 = ((ms_total % 3_600_000) / 60_000) as u64;
    let ss: u64 = ((ms_total % 60_000) / 1_000) as u64;
    let rr: u64 = (ms_total % 1_000) as u64;
    proof {
        assert(ms_total <= u64::MAX * 1000 + 1000);
        assert(ms_total / 86_400_000 < u64::MAX as int + 1) by {
            vstd::arithmetic::div_mod::lemma_multiply_divide_lt(
                ms_total as int,
                86_400_000,
                u64::MAX as int + 1,
            );
        }
    }
    let mut out: Vec<u8> = Vec::new();
    let mut toks: Ghost<Seq<(nat, Unit)>> = Ghost(Seq::empty());
    if dd > 0 {
        toks = push_component(&mut out, toks, dd, Unit::Day);
    }
    if hh > 0 {
        toks = push_component(&mut out, toks, hh, Unit::Hour);
    }
    if mm > 0 {
        toks = push_component(&mut out, toks, mm, Unit::Min);
    }
    if ss > 0 {
        toks = push_component(&mut out, toks, ss, Unit::Sec);
    }
    if rr > 0 {
        toks = push_component(&mut out, toks, rr, Unit::Milli);
    }
    proof {
        assert(toks@ == human_toks(ms));
    }
    string_from_ascii(out)
}

/// The whole-seconds output mode: the duration is first rounded to the
/// nearest whole millisecond, as every mode rounds, so that this mode and
/// the millisecond mode agree on one value; the sub-second millisecond
/// remainder of that rounded total is then truncated, never rounded.
/// At the one total whose rounded second count leaves the 64-bit range
/// the result saturates, since this formatter has no error case.
pub fn format_secs(dur: &Duration) -> (r: u64)
    requires
        dur.wf(),
    ensures
        dur.millis_rounded() / 1000 <= u64::MAX ==> r == dur.millis_rounded() / 1000,
        dur.millis_rounded() / 1000 > u64::MAX ==> r == u64::MAX,
{
    let ms_total: u128 = (dur.as_secs() as u128) * 1000 + ((dur.subsec_nanos() as u128 + 500_000)
        / 1_000_000);
    let q: u128 = ms_total / 1000;
    if q > u64::MAX as u128 {
        u64::MAX
    } else {
        q as u64
    }
}

/// The whole-milliseconds output mode: the total rounded to the nearest
/// millisecond, rejected only when it cannot fit the 64-bit target width.
pub fn format_millis(dur: &Duration) -> (r: Result<u64, FormatError>)
    requires
        dur.wf(),
    ensures
        dur.millis_rounded() <= u64::MAX ==> (r matches Ok(v) && v == dur.millis_rounded()),
        dur.millis_rounded() > u64::MAX ==> r == Err::<u64, FormatError>(FormatError::TooLarge),
{
    let ms_total: u128 = (dur.as_secs() as u128) * 1000 + ((dur.subsec_nanos() as u128 + 500_000)
        / 1_000_000);
    if ms_total > u64::MAX as u128 {
        Err(FormatError::TooLarge)
    } else {
        Ok(ms_total as u64)
    }
}

/// The human output mode lifted to an optional value: absent stays absent
/// (never rendered as `"0s"`), present is rendered by the human formatter.
pub fn format_human_opt(v: &Option<Duration>) -> (r: Option<String>)
    requires
        v matches Some(d) ==> d.wf(),
    ensures
        v is None <==> r is None,
        v matches Some(d) ==> (r matches Some(s) && s@ == chars_of(
            human_bytes(d.millis_rounded()),
        )),
{
    match v {
        Some(d) => Some(to_human_string(d)),
        None => None,
    }
}

} // verus!
