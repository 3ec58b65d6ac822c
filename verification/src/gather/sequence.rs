//! Colour sequences: the code values that a capture steps through.
use vstd::prelude::*;

use crate::number::{CodeValue, Fraction};
use crate::text::{
    around, chars_of, debug_text, decimal_reads_back, decimal_text, find_from, first_index,
    lemma_first_index_is, parse_u64, same_text, text_between, unsigned_text,
};

verus! {

/// The seed of scatter sequences, fixed so that runs can be compared.
pub const SCATTER_SEED: u64 = 0x7472_6973_7469_6d01;

// ---------------------------------------------------------------------------
// Ramps
// ---------------------------------------------------------------------------

/// A ramp has at least two steps.
pub open spec fn steps(n: nat) -> nat {
    if n < 2 {
        2
    } else {
        n
    }
}

/// The fraction `k / (n - 1)`.
pub open spec fn level(k: int, n: nat) -> Fraction {
    Fraction { num: k as u64, den: (n - 1) as u64 }
}

pub open spec fn grey(f: Fraction) -> CodeValue {
    CodeValue { r: f, g: f, b: f }
}

/// Full scale on one channel scaled by `f`, and nothing on the others.
pub open spec fn on_channel(ch: int, f: Fraction) -> CodeValue {
    let zero = Fraction { num: 0, den: 1 };
    CodeValue {
        r: if ch == 0 {
            f
        } else {
            zero
        },
        g: if ch == 1 {
            f
        } else {
            zero
        },
        b: if ch == 2 {
            f
        } else {
            zero
        },
    }
}

/// A grey ramp from 0 to 1.
pub open spec fn grey_levels(n: nat) -> Seq<CodeValue> {
    Seq::new(steps(n), |k: int| grey(level(k, steps(n))))
}

/// One ramp per channel, without the shared black.
pub open spec fn primary_levels(n: nat) -> Seq<CodeValue> {
    let m = (steps(n) - 1) as nat;
    Seq::new(3 * m, |i: int| on_channel(i / (m as int), level(i % (m as int) + 1, steps(n))))
}

/// A grey ramp of `n` steps, at least two, from 0 to 1.
pub fn grey_ramp(n: usize) -> (res: Vec<CodeValue>)
    ensures
        res@ == grey_levels(n as nat),
{
    let n: usize = if n < 2 {
        2
    } else {
        n
    };
    let mut out: Vec<CodeValue> = Vec::new();
    let mut k: usize = 0;
    while k < n
        invariant
            2 <= n,
            k <= n,
            out@ == Seq::new(k as nat, |i: int| grey(level(i, n as nat))),
        decreases n - k,
    {
        let f = Fraction { num: k as u64, den: (n - 1) as u64 };
        out.push(CodeValue { r: f, g: f, b: f });
        k += 1;
        assert(out@ == Seq::new(k as nat, |i: int| grey(level(i, n as nat))));
    }
    out
}

/// Ramps of red, green and blue, each of `n - 1` steps up to full scale.
pub fn primary_ramps(n: usize) -> (res: Vec<CodeValue>)
    ensures
        res@ == primary_levels(n as nat),
{
    let n: usize = if n < 2 {
        2
    } else {
        n
    };
    let ghost m = (n - 1) as nat;
    let zero = Fraction { num: 0, den: 1 };
    let mut out: Vec<CodeValue> = Vec::new();
    let mut ch: usize = 0;
    assert(0 * m == 0) by (nonlinear_arith);
    while ch < 3
        invariant
            2 <= n,
            m == n - 1,
            ch <= 3,
            zero == (Fraction { num: 0, den: 1 }),
            out@.len() == ch * m,
            forall|i: int|
                0 <= i < out@.len() ==> #[trigger] out@[i] == on_channel(
                    i / (m as int),
                    level(i % (m as int) + 1, n as nat),
                ),
        decreases 3 - ch,
    {
        let mut k: usize = 1;
        while k < n
            invariant
                2 <= n,
                m == n - 1,
                ch < 3,
                1 <= k <= n,
                zero == (Fraction { num: 0, den: 1 }),
                out@.len() == ch * m + (k - 1),
                forall|i: int|
                    0 <= i < out@.len() ==> #[trigger] out@[i] == on_channel(
                        i / (m as int),
                        level(i % (m as int) + 1, n as nat),
                    ),
            decreases n - k,
        {
            let f = Fraction { num: k as u64, den: (n - 1) as u64 };
            let v = CodeValue {
                r: if ch == 0 {
                    f
                } else {
                    zero
                },
                g: if ch == 1 {
                    f
                } else {
                    zero
                },
                b: if ch == 2 {
                    f
                } else {
                    zero
                },
            };
            proof {
                vstd::arithmetic::div_mod::lemma_fundamental_div_mod_converse(
                    out@.len() as int,
                    m as int,
                    ch as int,
                    k - 1,
                );
            }
            out.push(v);
            k += 1;
        }
        assert((ch + 1) * m == ch * m + m) by (nonlinear_arith);
        ch += 1;
    }
    assert(out@ == primary_levels(n as nat));
    out
}

/// A grey ramp starts at black, ends at white, and rises in equal steps.
pub proof fn grey_ramp_spans_zero_to_one(n: nat)
    requires
        n <= u64::MAX,
    ensures
        ({
            let r = grey_levels(n);
            let last = r.len() - 1;
            &&& r.len() == steps(n)
            &&& r[0].r.num == 0
            &&& r[last].r.num == r[last].r.den
            &&& forall|k: int|
                0 <= k < r.len() ==> (#[trigger] r[k]).r == r[k].g && r[k].g == r[k].b
                    && r[k].r.den == last && r[k].r.num == k
        }),
{
}

/// Primary ramps go through the channels in turn and end each at full scale.
pub proof fn primary_ramps_cover_three_channels(n: nat, ch: int)
    requires
        n <= u64::MAX,
        0 <= ch < 3,
    ensures
        ({
            let m = steps(n) - 1;
            let r = primary_levels(n);
            &&& r.len() == 3 * m
            &&& r[(ch + 1) * m - 1] == on_channel(ch, level(m, steps(n)))
            &&& level(m, steps(n)).num == level(m, steps(n)).den
        }),
{
    let m = steps(n) - 1;
    let i = (ch + 1) * m - 1;
    assert(i == ch * m + (m - 1)) by (nonlinear_arith)
        requires
            i == (ch + 1) * m - 1,
    ;
    assert(0 <= i < 3 * m) by (nonlinear_arith)
        requires
            i == ch * m + (m - 1),
            0 <= ch < 3,
            m >= 1,
    ;
    vstd::arithmetic::div_mod::lemma_fundamental_div_mod_converse(i, m, ch, m - 1);
}

// ---------------------------------------------------------------------------
// Scatter
// ---------------------------------------------------------------------------

/// The stream's step from one state to the next.
pub open spec fn next_state(state: u64) -> u64 {
    state.wrapping_add(0x9E37_79B9_7F4A_7C15)
}

/// The number that the stream draws at a state: 53 bits of the mixed state.
pub open spec fn drawn(state: u64) -> u64 {
    let a = (state ^ (state >> 30u64)).wrapping_mul(0xBF58_476D_1CE4_E5B9);
    let b = (a ^ (a >> 27u64)).wrapping_mul(0x94D0_49BB_1331_11EB);
    (b ^ (b >> 31u64)) >> 11u64
}

/// The state of the stream after `n` draws.
pub open spec fn state_after(seed: u64, n: nat) -> u64
    decreases n,
{
    if n == 0 {
        seed
    } else {
        next_state(state_after(seed, (n - 1) as nat))
    }
}

/// Draw number `n` of the stream, counted from 1, as a fraction.
pub open spec fn draw(seed: u64, n: nat) -> Fraction {
    Fraction { num: drawn(state_after(seed, n)), den: 0x20_0000_0000_0000 }
}

/// Candidate number `i` of the stream: three draws.
pub open spec fn candidate(seed: u64, i: nat) -> CodeValue {
    CodeValue {
        r: draw(seed, 3 * i + 1),
        g: draw(seed, 3 * i + 2),
        b: draw(seed, 3 * i + 3),
    }
}

/// How many candidates are tried at most.
pub open spec fn attempt_budget(count: usize) -> nat {
    let n = count as nat * 100;
    if n > usize::MAX {
        usize::MAX as nat
    } else if n < 1000 {
        1000
    } else {
        n
    }
}

/// The candidates whose verdict is good, in order.
pub open spec fn kept(seed: u64, verdicts: Seq<bool>) -> Seq<CodeValue>
    decreases verdicts.len(),
{
    if verdicts.len() == 0 {
        seq![]
    } else {
        let front = kept(seed, verdicts.drop_last());
        if verdicts.last() {
            front.push(candidate(seed, (verdicts.len() - 1) as nat))
        } else {
            front
        }
    }
}

/// The verdicts of a whole draw: one per candidate tried, until enough are kept
/// or the budget is used up.
pub open spec fn completes(seed: u64, verdicts: Seq<bool>, count: usize) -> bool {
    &&& verdicts.len() <= attempt_budget(count)
    &&& kept(seed, verdicts).len() <= count
    &&& kept(seed, verdicts).len() == count || verdicts.len() == attempt_budget(count)
    &&& verdicts.len() > 0 ==> kept(seed, verdicts.drop_last()).len() < count
}

/// Draws the next fraction of the stream.
fn next_draw(state: u64) -> (res: (u64, Fraction))
    ensures
        res.0 == next_state(state),
        res.1 == (Fraction { num: drawn(next_state(state)), den: 0x20_0000_0000_0000 }),
{
    let s: u64 = state.wrapping_add(0x9E37_79B9_7F4A_7C15);
    let a: u64 = (s ^ (s >> 30)).wrapping_mul(0xBF58_476D_1CE4_E5B9);
    let b: u64 = (a ^ (a >> 27)).wrapping_mul(0x94D0_49BB_1331_11EB);
    let z: u64 = b ^ (b >> 31);
    (s, Fraction { num: z >> 11, den: 0x20_0000_0000_0000 })
}

/// Every draw lies in `[0, 1)`.
pub proof fn draws_are_in_range(seed: u64, n: nat)
    ensures
        draw(seed, n).num < draw(seed, n).den,
{
    let s = state_after(seed, n);
    let a = (s ^ (s >> 30u64)).wrapping_mul(0xBF58_476D_1CE4_E5B9);
    let b = (a ^ (a >> 27u64)).wrapping_mul(0x94D0_49BB_1331_11EB);
    let z = b ^ (b >> 31u64);
    assert(z >> 11u64 < 0x20_0000_0000_0000u64) by (bit_vector);
}

/// Draws candidates from the seed's stream, keeping those that are accepted,
/// until `count` are kept or the budget is used up.
pub fn scatter_accepted<F: Fn(CodeValue) -> bool>(count: usize, seed: u64, accept: F) -> (res: Vec<
    CodeValue,
>)
    requires
        forall|p: CodeValue| call_requires(accept, (p,)),
    ensures
        exists|verdicts: Seq<bool>|
            #![auto]
            {
                &&& completes(seed, verdicts, count)
                &&& res@ == kept(seed, verdicts)
                &&& forall|i: int|
                    0 <= i < verdicts.len() ==> call_ensures(
                        accept,
                        (candidate(seed, i as nat),),
                        #[trigger] verdicts[i],
                    )
            },
{
    let budget: usize = {
        let n: usize = if count > usize::MAX / 100 {
            usize::MAX
        } else {
            count * 100
        };
        if n < 1000 {
            1000
        } else {
            n
        }
    };
    let mut out: Vec<CodeValue> = Vec::new();
    let mut tries: usize = 0;
    let mut state: u64 = seed;
    let ghost mut verdicts: Seq<bool> = seq![];
    while out.len() < count && tries < budget
        invariant
            forall|p: CodeValue| call_requires(accept, (p,)),
            budget == attempt_budget(count),
            tries <= budget,
            tries == verdicts.len(),
            state == state_after(seed, 3 * tries as nat),
            out@ == kept(seed, verdicts),
            out@.len() <= count,
            verdicts.len() > 0 ==> kept(seed, verdicts.drop_last()).len() < count,
            forall|i: int|
                0 <= i < verdicts.len() ==> call_ensures(
                    accept,
                    (candidate(seed, i as nat),),
                    #[trigger] verdicts[i],
                ),
        decreases budget - tries,
    {
        let (s1, r) = next_draw(state);
        let (s2, g) = next_draw(s1);
        let (s3, b) = next_draw(s2);
        let p = CodeValue { r, g, b };
        proof {
            assert(state_after(seed, 3 * tries as nat + 1) == s1);
            assert(state_after(seed, 3 * tries as nat + 2) == s2);
            assert(state_after(seed, 3 * tries as nat + 3) == s3);
            assert(p == candidate(seed, tries as nat));
        }
        state = s3;
        let ok: bool = accept(p);
        proof {
            let before = verdicts;
            verdicts = verdicts.push(ok);
            assert(verdicts.drop_last() == before);
        }
        tries += 1;
        if ok {
            out.push(p);
        }
    }
    assert(completes(seed, verdicts, count));
    out
}

/// The first `n` candidates of a seed.
pub open spec fn candidates(seed: u64, n: nat) -> Seq<CodeValue> {
    Seq::new(n, |i: int| candidate(seed, i as nat))
}

proof fn lemma_kept_all(seed: u64, verdicts: Seq<bool>)
    requires
        forall|i: int| 0 <= i < verdicts.len() ==> #[trigger] verdicts[i],
    ensures
        kept(seed, verdicts) == candidates(seed, verdicts.len()),
    decreases verdicts.len(),
{
    if verdicts.len() > 0 {
        let front = verdicts.drop_last();
        assert forall|i: int| 0 <= i < front.len() implies #[trigger] front[i] by {
            assert(front[i] == verdicts[i]);
        }
        lemma_kept_all(seed, front);
        assert(candidates(seed, verdicts.len()) == candidates(seed, front.len()).push(
            candidate(seed, front.len()),
        ));
    } else {
        assert(candidates(seed, 0) == Seq::<CodeValue>::empty());
    }
}

/// Where every candidate is accepted, the points kept are the first `count`
/// candidates of the stream.
pub proof fn accepting_all_keeps_the_stream(seed: u64, verdicts: Seq<bool>, count: usize)
    requires
        completes(seed, verdicts, count),
        forall|i: int| 0 <= i < verdicts.len() ==> #[trigger] verdicts[i],
    ensures
        kept(seed, verdicts) == candidates(seed, count as nat),
{
    lemma_kept_all(seed, verdicts);
    if verdicts.len() == attempt_budget(count) {
        assert(attempt_budget(count) >= count);
    }
}

/// Only accepted points are kept.
pub proof fn only_accepted_points_are_kept(seed: u64, verdicts: Seq<bool>, k: int)
    requires
        0 <= k < kept(seed, verdicts).len(),
    ensures
        exists|i: int|
            0 <= i < verdicts.len() && #[trigger] verdicts[i] && kept(seed, verdicts)[k]
                == candidate(seed, i as nat),
    decreases verdicts.len(),
{
    if verdicts.len() > 0 {
        let front = verdicts.drop_last();
        if k < kept(seed, front).len() {
            only_accepted_points_are_kept(seed, front, k);
            let i = choose|i: int|
                0 <= i < front.len() && #[trigger] front[i] && kept(seed, front)[k] == candidate(
                    seed,
                    i as nat,
                );
            assert(verdicts[i]);
        } else {
            assert(verdicts[verdicts.len() - 1]);
        }
    }
}

/// The first `n` points of a seed's stream.
pub fn scatter(n: usize, seed: u64) -> (res: Vec<CodeValue>)
    ensures
        res@ == candidates(seed, n as nat),
{
    let all = |p: CodeValue| -> (ok: bool)
        ensures
            ok,
        { true };
    let out = scatter_accepted(n, seed, all);
    proof {
        let verdicts = choose|verdicts: Seq<bool>|
            #![auto]
            {
                &&& completes(seed, verdicts, n)
                &&& out@ == kept(seed, verdicts)
                &&& forall|i: int|
                    0 <= i < verdicts.len() ==> call_ensures(
                        all,
                        (candidate(seed, i as nat),),
                        #[trigger] verdicts[i],
                    )
            };
        assert forall|i: int| 0 <= i < verdicts.len() implies #[trigger] verdicts[i] by {
            assert(call_ensures(all, (candidate(seed, i as nat),), verdicts[i]));
        }
        accepting_all_keeps_the_stream(seed, verdicts, n);
    }
    out
}

// ---------------------------------------------------------------------------
// Sequence specs
// ---------------------------------------------------------------------------

/// The part of a spec in front of its first colon.
pub open spec fn spec_name(s: Seq<char>) -> Seq<char> {
    s.take(first_index(s, ':'))
}

/// The part of a spec after its first colon; empty without one.
pub open spec fn spec_arg(s: Seq<char>) -> Seq<char> {
    if first_index(s, ':') < s.len() {
        s.skip(first_index(s, ':') + 1)
    } else {
        seq![]
    }
}

/// Splits a spec at its first colon.
pub fn split_spec(s: &str) -> (res: (String, String))
    ensures
        res.0@ == spec_name(s@),
        res.1@ == spec_arg(s@),
{
    let v = chars_of(s);
    assert(v@.skip(0) == v@);
    let i = find_from(&v, 0, ':');
    let name = text_between(&v, 0, i);
    assert(v@.subrange(0, i as int) == s@.take(i as int));
    if i < v.len() {
        let arg = text_between(&v, i + 1, v.len());
        assert(v@.subrange(i + 1, v@.len() as int) == s@.skip(i + 1));
        (name, arg)
    } else {
        (name, String::new())
    }
}

/// The count that an argument gives, or the message of a bad one.
pub open spec fn count_of(arg: Seq<char>, default: usize) -> Result<usize, Seq<char>> {
    if arg.len() == 0 {
        Ok(default)
    } else {
        match unsigned_text(arg) {
            Some(n) if n <= usize::MAX => Ok(n as usize),
            _ => Err("bad count "@ + debug_text(arg) + " (expected a positive integer)"@),
        }
    }
}

pub open spec fn gives<T>(res: Result<T, String>, want: Result<T, Seq<char>>) -> bool {
    match (res, want) {
        (Ok(a), Ok(b)) => a == b,
        (Err(a), Err(b)) => a@ == b,
        _ => false,
    }
}

/// Reads a count, with a default for an empty text.
pub fn parse_count(arg: &str, default: usize) -> (res: Result<usize, String>)
    ensures
        gives(res, count_of(arg@, default)),
{
    if arg.is_empty() {
        return Ok(default);
    }
    match parse_u64(arg) {
        Some(n) if n <= usize::MAX as u64 => Ok(n as usize),
        _ => Err(around("bad count ", arg, " (expected a positive integer)")),
    }
}

/// The count of a `scatter[:N]` spec; none for a spec of another name.
pub fn parse_scatter(spec: &str) -> (res: Result<Option<usize>, String>)
    ensures
        gives(
            res,
            if spec_name(spec@) == "scatter"@ {
                match count_of(spec_arg(spec@), 32) {
                    Ok(n) => Ok(Some(n)),
                    Err(e) => Err(e),
                }
            } else {
                Ok(None)
            },
        ),
{
    let (name, arg) = split_spec(spec);
    if same_text(name.as_str(), "scatter") {
        match parse_count(arg.as_str(), 32) {
            Ok(n) => Ok(Some(n)),
            Err(e) => Err(e),
        }
    } else {
        Ok(None)
    }
}

/// The sequence of a `name[:N]` spec, or the message of a bad one.
pub open spec fn sequence_of(spec: Seq<char>) -> Result<Seq<CodeValue>, Seq<char>> {
    let name = spec_name(spec);
    let arg = spec_arg(spec);
    if name == "grey"@ || name == "gray"@ {
        match count_of(arg, 11) {
            Ok(n) => Ok(grey_levels(n as nat)),
            Err(e) => Err(e),
        }
    } else if name == "primaries"@ {
        match count_of(arg, 5) {
            Ok(n) => Ok(primary_levels(n as nat)),
            Err(e) => Err(e),
        }
    } else if name == "scatter"@ {
        match count_of(arg, 32) {
            Ok(n) => Ok(candidates(SCATTER_SEED, n as nat)),
            Err(e) => Err(e),
        }
    } else {
        Err("unknown sequence "@ + debug_text(name) + " (known: grey, primaries, scatter)"@)
    }
}

/// Reads a sequence spec.
pub fn parse_sequence(spec: &str) -> (res: Result<Vec<CodeValue>, String>)
    ensures
        match (res, sequence_of(spec@)) {
            (Ok(v), Ok(w)) => v@ == w,
            (Err(e), Err(f)) => e@ == f,
            _ => false,
        },
{
    let (name, arg) = split_spec(spec);
    if same_text(name.as_str(), "grey") || same_text(name.as_str(), "gray") {
        match parse_count(arg.as_str(), 11) {
            Ok(n) => Ok(grey_ramp(n)),
            Err(e) => Err(e),
        }
    } else if same_text(name.as_str(), "primaries") {
        match parse_count(arg.as_str(), 5) {
            Ok(n) => Ok(primary_ramps(n)),
            Err(e) => Err(e),
        }
    } else if same_text(name.as_str(), "scatter") {
        match parse_count(arg.as_str(), 32) {
            Ok(n) => Ok(scatter(n, SCATTER_SEED)),
            Err(e) => Err(e),
        }
    } else {
        Err(around("unknown sequence ", name.as_str(), " (known: grey, primaries, scatter)"))
    }
}

/// Every sequence steps through fractions.
pub proof fn sequences_are_fractions(spec: Seq<char>)
    ensures
        sequence_of(spec) matches Ok(s) ==> forall|i: int|
            0 <= i < s.len() ==> (#[trigger] s[i]).wf(),
{
}

/// Every scatter point that is kept is made of fractions.
pub proof fn scatter_points_are_fractions(seed: u64, verdicts: Seq<bool>)
    ensures
        forall|i: int| 0 <= i < kept(seed, verdicts).len() ==> (#[trigger] kept(seed, verdicts)[i]).wf(),
{
    assert forall|i: int| 0 <= i < kept(seed, verdicts).len() implies (
    #[trigger] kept(seed, verdicts)[i]).wf() by {
        only_accepted_points_are_kept(seed, verdicts, i);
    }
}

// ---------------------------------------------------------------------------
// What the sequences are
// ---------------------------------------------------------------------------

/// A grey ramp, point by point: point `k` of `n` shows `k / (n - 1)` on all three
/// channels, and there is no ramp of fewer than two points.
pub proof fn grey_ramp_point_by_point(n: nat, k: int)
    requires
        n <= u64::MAX,
        0 <= k < n || 0 <= k < 2,
    ensures
        ({
            let r = grey_levels(n);
            let last = if n < 2 {
                1
            } else {
                n - 1
            };
            &&& r.len() == last + 1
            &&& r[k].r.num == k && r[k].r.den == last
            &&& r[k].g.num == k && r[k].g.den == last
            &&& r[k].b.num == k && r[k].b.den == last
        }),
{
}

/// The primary ramps, point by point: first red, then green, then blue goes from
/// one step above black to full scale, while the other two channels stay black.
pub proof fn primary_ramps_point_by_point(n: nat, k: int)
    requires
        n <= u64::MAX,
        1 <= k,
        k < n || k == 1,
    ensures
        ({
            let p = primary_levels(n);
            let m = if n < 2 {
                1
            } else {
                n - 1
            };
            let red = p[k - 1];
            let green = p[m + k - 1];
            let blue = p[2 * m + k - 1];
            &&& p.len() == 3 * m
            &&& red.r.num == k && red.r.den == m && red.g.num == 0 && red.b.num == 0
            &&& green.g.num == k && green.g.den == m && green.r.num == 0 && green.b.num == 0
            &&& blue.b.num == k && blue.b.den == m && blue.r.num == 0 && blue.g.num == 0
            &&& red.wf() && green.wf() && blue.wf()
        }),
{
    let m = steps(n) - 1;
    assert(1 <= k <= m);
    vstd::arithmetic::div_mod::lemma_fundamental_div_mod_converse(k - 1, m, 0, k - 1);
    vstd::arithmetic::div_mod::lemma_fundamental_div_mod_converse(m + k - 1, m, 1, k - 1);
    vstd::arithmetic::div_mod::lemma_fundamental_div_mod_converse(2 * m + k - 1, m, 2, k - 1);
}

proof fn lemma_state_shifts(seed: u64, n: nat)
    ensures
        state_after(seed, n + 1) == state_after(next_state(seed), n),
    decreases n,
{
    reveal_with_fuel(state_after, 2);
    if n > 0 {
        lemma_state_shifts(seed, (n - 1) as nat);
    }
}

/// Scatter points are dealt from one stream: each channel takes the number after
/// the one that the channel before it took, and the next point goes on where the
/// last one ended. So starting one number later shifts every channel by one.
pub proof fn scatter_points_are_dealt_from_one_stream(seed: u64, i: nat)
    ensures
        candidate(next_state(seed), i).r == candidate(seed, i).g,
        candidate(next_state(seed), i).g == candidate(seed, i).b,
        candidate(next_state(seed), i).b == candidate(seed, i + 1).r,
        candidate(seed, 0).r.num == drawn(seed.wrapping_add(0x9E37_79B9_7F4A_7C15)),
        candidate(seed, i).r.den == 0x20_0000_0000_0000,
{
    lemma_state_shifts(seed, 3 * i + 1);
    lemma_state_shifts(seed, 3 * i + 2);
    lemma_state_shifts(seed, 3 * i + 3);
    reveal_with_fuel(state_after, 2);
}

/// How many of the verdicts are good.
pub open spec fn good_verdicts(verdicts: Seq<bool>) -> nat {
    verdicts.filter(|v: bool| v).len()
}

/// Every accepted point is kept, once and in its place: as many points are kept as
/// verdicts are good, and the point of a good verdict comes after as many others as
/// there are good verdicts before it.
pub proof fn accepted_points_keep_their_order(seed: u64, verdicts: Seq<bool>, j: int)
    requires
        0 <= j < verdicts.len(),
    ensures
        kept(seed, verdicts).len() == good_verdicts(verdicts),
        verdicts[j] ==> good_verdicts(verdicts.take(j)) < kept(seed, verdicts).len(),
        verdicts[j] ==> kept(seed, verdicts)[good_verdicts(verdicts.take(j)) as int] == candidate(
            seed,
            j as nat,
        ),
    decreases verdicts.len(),
{
    let front = verdicts.drop_last();
    lemma_kept_count(seed, verdicts);
    lemma_kept_count(seed, front);
    if j < front.len() {
        accepted_points_keep_their_order(seed, front, j);
        assert(front.take(j) == verdicts.take(j));
    } else {
        assert(verdicts.take(j) == front);
    }
}

proof fn lemma_kept_count(seed: u64, verdicts: Seq<bool>)
    ensures
        kept(seed, verdicts).len() == good_verdicts(verdicts),
    decreases verdicts.len(),
{
    reveal(Seq::filter);
    if verdicts.len() > 0 {
        lemma_kept_count(seed, verdicts.drop_last());
    }
}

/// Drawing goes on for a hundred candidates to each point that is wanted, and for a
/// thousand at least.
pub proof fn many_candidates_are_tried(count: usize)
    ensures
        attempt_budget(count) >= 1000,
        100 * count <= usize::MAX ==> attempt_budget(count) >= 100 * count,
        100 * count > usize::MAX ==> attempt_budget(count) == usize::MAX,
        attempt_budget(count) <= 1000 || attempt_budget(count) <= 100 * count,
{
}

proof fn lemma_spec_parts(name: Seq<char>, arg: Seq<char>)
    requires
        !name.contains(':'),
    ensures
        spec_name(name) == name,
        spec_arg(name).len() == 0,
        spec_name(name + seq![':'] + arg) == name,
        spec_arg(name + seq![':'] + arg) == arg,
{
    let s = name + seq![':'] + arg;
    assert forall|j: int| 0 <= j < name.len() implies s[j] != ':' && name[j] != ':' by {
        assert(name.contains(name[j]));
    }
    assert(s[name.len() as int] == ':');
    lemma_first_index_is(s, ':', name.len() as int);
    lemma_first_index_is(name, ':', name.len() as int);
    assert(s.take(name.len() as int) == name);
    assert(s.skip((name.len() + 1) as int) == arg);
    assert(name.take(name.len() as int) == name);
}

/// A sequence is asked for by its name and the number of its steps or points, and
/// without a number there are eleven greys, five levels a primary or 32 points.
pub proof fn specs_name_the_sequences(n: usize)
    ensures
        sequence_of("grey"@ + seq![':'] + decimal_text(n as nat)) == Ok::<
            Seq<CodeValue>,
            Seq<char>,
        >(grey_levels(n as nat)),
        sequence_of("gray"@ + seq![':'] + decimal_text(n as nat)) == Ok::<
            Seq<CodeValue>,
            Seq<char>,
        >(grey_levels(n as nat)),
        sequence_of("primaries"@ + seq![':'] + decimal_text(n as nat)) == Ok::<
            Seq<CodeValue>,
            Seq<char>,
        >(primary_levels(n as nat)),
        sequence_of("scatter"@ + seq![':'] + decimal_text(n as nat)) == Ok::<
            Seq<CodeValue>,
            Seq<char>,
        >(candidates(SCATTER_SEED, n as nat)),
        sequence_of("grey"@) == Ok::<Seq<CodeValue>, Seq<char>>(grey_levels(11)),
        sequence_of("gray"@) == Ok::<Seq<CodeValue>, Seq<char>>(grey_levels(11)),
        sequence_of("primaries"@) == Ok::<Seq<CodeValue>, Seq<char>>(primary_levels(5)),
        sequence_of("scatter"@) == Ok::<Seq<CodeValue>, Seq<char>>(candidates(SCATTER_SEED, 32)),
{
    reveal_strlit("grey");
    reveal_strlit("gray");
    reveal_strlit("primaries");
    reveal_strlit("scatter");
    let d = decimal_text(n as nat);
    decimal_reads_back(n as nat);
    assert(d.len() > 0);
    lemma_spec_parts("grey"@, d);
    lemma_spec_parts("gray"@, d);
    lemma_spec_parts("primaries"@, d);
    lemma_spec_parts("scatter"@, d);
    assert("grey"@.len() == 4 && "gray"@.len() == 4 && "primaries"@.len() == 9 && "scatter"@.len()
        == 7);
}

/// The ramps that are shown are those point by point, and no others.
pub proof fn ramps_are_shown_as_asked(n: usize, k: int, greys: Vec<CodeValue>, ramps: Vec<CodeValue>)
    requires
        call_ensures(grey_ramp, (n,), greys),
        call_ensures(primary_ramps, (n,), ramps),
        1 <= k,
        k < n || k == 1,
    ensures
        ({
            let m = if n < 2 {
                1
            } else {
                n - 1
            };
            &&& greys@.len() == m + 1
            &&& ramps@.len() == 3 * m
            &&& greys@[0].r.num == 0 && greys@[0].g.num == 0 && greys@[0].b.num == 0
            &&& greys@[k].r.num == k && greys@[k].g.num == k && greys@[k].b.num == k
            &&& greys@[k].r.den == m && greys@[k].g.den == m && greys@[k].b.den == m
            &&& ramps@[k - 1].r.num == k && ramps@[k - 1].r.den == m
            &&& ramps@[m + k - 1].g.num == k && ramps@[m + k - 1].g.den == m
            &&& ramps@[2 * m + k - 1].b.num == k && ramps@[2 * m + k - 1].b.den == m
        }),
{
    grey_ramp_point_by_point(n as nat, k);
    grey_ramp_point_by_point(n as nat, 0);
    primary_ramps_point_by_point(n as nat, k);
}

/// The number that a channel takes from the state of the stream: the state is mixed
/// twice by a shift and a product and once by a shift, and its upper 53 bits are kept.
pub open spec fn upper_bits_of_mixed(s: u64) -> u64 {
    let a = (s ^ (s >> 30)).wrapping_mul(0xBF58_476D_1CE4_E5B9);
    let b = (a ^ (a >> 27)).wrapping_mul(0x94D0_49BB_1331_11EB);
    (b ^ (b >> 31)) >> 11
}

/// The first scatter point takes the first three numbers of its seed's stream, whose
/// state goes on by the same odd step each time.
pub proof fn the_first_point_takes_the_first_numbers(n: usize, seed: u64, v: Vec<CodeValue>)
    requires
        n > 0,
        call_ensures(scatter, (n, seed), v),
    ensures
        v@.len() == n,
        ({
            let a = seed.wrapping_add(0x9E37_79B9_7F4A_7C15);
            let b = a.wrapping_add(0x9E37_79B9_7F4A_7C15);
            let c = b.wrapping_add(0x9E37_79B9_7F4A_7C15);
            &&& v@[0].r.num == upper_bits_of_mixed(a) && v@[0].r.den == 0x20_0000_0000_0000
            &&& v@[0].g.num == upper_bits_of_mixed(b) && v@[0].g.den == 0x20_0000_0000_0000
            &&& v@[0].b.num == upper_bits_of_mixed(c) && v@[0].b.den == 0x20_0000_0000_0000
        }),
{
    reveal_with_fuel(state_after, 4);
}

/// Scatter points do not depend on how many are asked for: fewer points are the
/// beginning of more.
pub proof fn fewer_points_are_the_beginning(
    n: usize,
    m: usize,
    seed: u64,
    v: Vec<CodeValue>,
    w: Vec<CodeValue>,
    i: int,
)
    requires
        call_ensures(scatter, (n, seed), v),
        call_ensures(scatter, (m, seed), w),
        0 <= i < n,
        n <= m,
    ensures
        v@.len() == n,
        w@.len() == m,
        v@[i] == w@[i],
{
}

} // verus!
