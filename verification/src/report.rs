use vstd::prelude::*;
use vstd::string::StringSliceAdditionalSpecFns;
use crate::serial::append_bytes;

verus! {

/// The decimal digits of `n`, most significant first, without leading zeros
/// ("0" for zero).
pub open spec fn decimal(n: u64) -> Seq<u8>
    decreases n,
{
    if n < 10 {
        seq![(48 + n) as u8]
    } else {
        decimal(n / 10).push((48 + n % 10) as u8)
    }
}

/// The decimal text of `n`.
pub fn print_u64(n: u64) -> (r: Vec<u8>)
    ensures
        r@ == decimal(n),
{
    if n == 0 {
        let mut r: Vec<u8> = Vec::new();
        r.push(48);
        return r;
    }
    let mut digits: Vec<u8> = Vec::new();
    let mut m: u64 = n;
    while m > 0
        invariant
            decimal(n) == (if m == 0 { Seq::<u8>::empty() } else { decimal(m) }) + digits@.reverse(),
        decreases m,
    {
        let d = (m % 10) as u8;
        let ghost before = digits@;
        digits.push(48 + d);
        proof {
            if m >= 10 {
                assert(decimal(m) == decimal(m / 10).push((48 + m % 10) as u8));
                assert(digits@.reverse() =~= seq![(48 + d) as u8] + before.reverse());
                assert(decimal(m / 10).push((48 + m % 10) as u8) + before.reverse() =~= decimal(m / 10) + digits@.reverse());
            } else {
                assert(digits@.reverse() =~= seq![(48 + d) as u8] + before.reverse());
                assert(decimal(m) + before.reverse() =~= Seq::<u8>::empty() + digits@.reverse());
            }
        }
        m = m / 10;
    }
    let mut r: Vec<u8> = Vec::new();
    let mut i: usize = digits.len();
    while i > 0
        invariant
            i <= digits.len(),
            r@ == digits@.reverse().subrange(0, (digits.len() - i) as int),
        decreases i,
    {
        i = i - 1;
        r.push(digits[i]);
        assert(r@ =~= digits@.reverse().subrange(0, (digits.len() - i) as int));
    }
    assert(Seq::<u8>::empty() + digits@.reverse() =~= digits@.reverse());
    assert(digits@.reverse().subrange(0, digits.len() as int) =~= digits@.reverse());
    r
}

/// A key and a decimal value, one after the other.
pub fn kv(k: &str, v: u64) -> (r: Vec<u8>)
    ensures
        r@ == k.spec_bytes() + decimal(v),
{
    let mut r: Vec<u8> = Vec::new();
    append_bytes(&mut r, k.as_bytes());
    let d = print_u64(v);
    append_bytes(&mut r, d.as_slice());
    r
}

/// A report line of the stress test: its name, PASS or FAIL, and a value.
pub fn line(test: &str, pass: bool, detail: &str, value: u64) -> (r: Vec<u8>)
    ensures
        r@ == "PSTRESS test=".spec_bytes() + test.spec_bytes() + (if pass { " status=PASS ".spec_bytes() } else {
            " status=FAIL ".spec_bytes()
        }) + detail.spec_bytes() + "=".spec_bytes() + decimal(value) + "\n".spec_bytes(),
{
    let mut r: Vec<u8> = Vec::new();
    append_bytes(&mut r, "PSTRESS test=".as_bytes());
    append_bytes(&mut r, test.as_bytes());
    if pass {
        append_bytes(&mut r, " status=PASS ".as_bytes());
    } else {
        append_bytes(&mut r, " status=FAIL ".as_bytes());
    }
    append_bytes(&mut r, detail.as_bytes());
    append_bytes(&mut r, "=".as_bytes());
    let d = print_u64(value);
    append_bytes(&mut r, d.as_slice());
    append_bytes(&mut r, "\n".as_bytes());
    r
}

/// A progress line of the stress test.
pub fn heartbeat(phase: &str, round: u32) -> (r: Vec<u8>)
    ensures
        r@ == "PSTRESS heartbeat phase=".spec_bytes() + phase.spec_bytes() + " round=".spec_bytes() + decimal(round as u64)
            + "\n".spec_bytes(),
{
    let mut r: Vec<u8> = Vec::new();
    append_bytes(&mut r, "PSTRESS heartbeat phase=".as_bytes());
    append_bytes(&mut r, phase.as_bytes());
    append_bytes(&mut r, " round=".as_bytes());
    let d = print_u64(round as u64);
    append_bytes(&mut r, d.as_slice());
    append_bytes(&mut r, "\n".as_bytes());
    r
}

/// The least of `s`.
pub open spec fn seq_min(s: Seq<u64>) -> u64
    decreases s.len(),
{
    if s.len() == 0 {
        u64::MAX
    } else {
        let m = seq_min(s.drop_last());
        if s.last() < m { s.last() } else { m }
    }
}

/// The greatest of `s`.
pub open spec fn seq_max(s: Seq<u64>) -> u64
    decreases s.len(),
{
    if s.len() == 0 {
        0
    } else {
        let m = seq_max(s.drop_last());
        if s.last() > m { s.last() } else { m }
    }
}

/// The sum of `s`.
pub open spec fn seq_sum(s: Seq<u64>) -> int
    decreases s.len(),
{
    if s.len() == 0 {
        0
    } else {
        seq_sum(s.drop_last()) + s.last()
    }
}

proof fn lemma_sum_mono(s: Seq<u64>, i: int)
    requires
        0 <= i <= s.len(),
    ensures
        seq_sum(s.subrange(0, i)) <= seq_sum(s),
        0 <= seq_sum(s.subrange(0, i)),
    decreases s.len() - i,
{
    if i < s.len() {
        lemma_sum_mono(s, i + 1);
        assert(s.subrange(0, i + 1).drop_last() =~= s.subrange(0, i));
    } else {
        assert(s.subrange(0, i) =~= s);
    }
    lemma_sum_nonneg(s.subrange(0, i));
}

proof fn lemma_sum_nonneg(s: Seq<u64>)
    ensures
        seq_sum(s) >= 0,
    decreases s.len(),
{
    if s.len() > 0 {
        lemma_sum_nonneg(s.drop_last());
    }
}

/// The least, the mean (rounded down) and the greatest of the measured cycle
/// counts; the sum must fit in 64 bits.
pub fn measure_stats(samples: &[u64]) -> (r: (u64, u64, u64))
    requires
        samples.len() > 0,
        seq_sum(samples@) <= u64::MAX,
    ensures
        r.0 == seq_min(samples@),
        r.1 == seq_sum(samples@) / samples@.len() as int,
        r.2 == seq_max(samples@),
{
    let mut min: u64 = u64::MAX;
    let mut max: u64 = 0;
    let mut sum: u64 = 0;
    let mut i: usize = 0;
    while i < samples.len()
        invariant
            i <= samples.len(),
            seq_sum(samples@) <= u64::MAX,
            min == seq_min(samples@.subrange(0, i as int)),
            max == seq_max(samples@.subrange(0, i as int)),
            sum == seq_sum(samples@.subrange(0, i as int)),
        decreases samples.len() - i,
    {
        let d = samples[i];
        proof {
            assert(samples@.subrange(0, i + 1).drop_last() =~= samples@.subrange(0, i as int));
            lemma_sum_mono(samples@, i + 1);
        }
        if d < min {
            min = d;
        }
        if d > max {
            max = d;
        }
        sum = sum + d;
        i = i + 1;
    }
    assert(samples@.subrange(0, samples.len() as int) =~= samples@);
    (min, sum / samples.len() as u64, max)
}

/// `a - b`, wrapping around 2^64.
pub open spec fn wsub(a: u64, b: u64) -> u64 {
    if a >= b {
        (a - b) as u64
    } else {
        (a - b + 0x1_0000_0000_0000_0000) as u64
    }
}

/// `a + b`, wrapping around 2^64.
pub open spec fn wadd(a: u64, b: u64) -> u64 {
    if a + b > u64::MAX {
        (a + b - 0x1_0000_0000_0000_0000) as u64
    } else {
        (a + b) as u64
    }
}

/// The wrapping sum of `s`.
pub open spec fn wsum(s: Seq<u64>) -> u64
    decreases s.len(),
{
    if s.len() == 0 {
        0
    } else {
        wadd(wsum(s.drop_last()), s.last())
    }
}

/// Round trips of the cache-line ping-pong, from rounds `(t0, t1, st)`: the client
/// wrote at `t0` and saw the answer at `t1`.
pub open spec fn round_trips(r: Seq<(u64, u64, u64)>) -> Seq<u64> {
    Seq::new(r.len(), |i: int| (r[i].1 - r[i].0) as u64)
}

/// Outbound legs of the ping-pong: from the client's write at `t0` to the
/// server's stamp `st`, wrapping.
pub open spec fn outbound_legs(r: Seq<(u64, u64, u64)>) -> Seq<u64> {
    Seq::new(r.len(), |i: int| wsub(r[i].2, r[i].0))
}

/// Inbound legs of the ping-pong: from the server's stamp `st` to the client's
/// sight at `t1`, wrapping.
pub open spec fn inbound_legs(r: Seq<(u64, u64, u64)>) -> Seq<u64> {
    Seq::new(r.len(), |i: int| wsub(r[i].1, r[i].2))
}

/// The figures of the ping-pong floor from its measured rounds `(t0, t1, st)`:
/// the least round trip, and the mean round trip, outbound and inbound leg
/// (rounded down); the sums must fit in 64 bits.
pub fn floor_stats(rounds: &[(u64, u64, u64)]) -> (r: (u64, u64, u64, u64))
    requires
        rounds.len() > 0,
        forall|i: int| 0 <= i < rounds.len() ==> (#[trigger] rounds@[i]).0 <= rounds@[i].1,
        seq_sum(round_trips(rounds@)) <= u64::MAX,
        seq_sum(outbound_legs(rounds@)) <= u64::MAX,
        seq_sum(inbound_legs(rounds@)) <= u64::MAX,
    ensures
        r.0 == seq_min(round_trips(rounds@)),
        r.1 == seq_sum(round_trips(rounds@)) / rounds@.len() as int,
        r.2 == seq_sum(outbound_legs(rounds@)) / rounds@.len() as int,
        r.3 == seq_sum(inbound_legs(rounds@)) / rounds@.len() as int,
{
    let ghost rt = round_trips(rounds@);
    let ghost ob = outbound_legs(rounds@);
    let ghost ib = inbound_legs(rounds@);
    let mut rt_min: u64 = u64::MAX;
    let mut rt_sum: u64 = 0;
    let mut out_sum: u64 = 0;
    let mut in_sum: u64 = 0;
    let mut i: usize = 0;
    while i < rounds.len()
        invariant
            i <= rounds.len(),
            rt == round_trips(rounds@),
            ob == outbound_legs(rounds@),
            ib == inbound_legs(rounds@),
            forall|k: int| 0 <= k < rounds.len() ==> (#[trigger] rounds@[k]).0 <= rounds@[k].1,
            seq_sum(rt) <= u64::MAX,
            seq_sum(ob) <= u64::MAX,
            seq_sum(ib) <= u64::MAX,
            rt_min == seq_min(rt.subrange(0, i as int)),
            rt_sum == seq_sum(rt.subrange(0, i as int)),
            out_sum == seq_sum(ob.subrange(0, i as int)),
            in_sum == seq_sum(ib.subrange(0, i as int)),
        decreases rounds.len() - i,
    {
        let (t0, t1, st) = rounds[i];
        proof {
            assert(rt.subrange(0, i + 1).drop_last() =~= rt.subrange(0, i as int));
            assert(ob.subrange(0, i + 1).drop_last() =~= ob.subrange(0, i as int));
            assert(ib.subrange(0, i + 1).drop_last() =~= ib.subrange(0, i as int));
            lemma_sum_mono(rt, i + 1);
            lemma_sum_mono(ob, i + 1);
            lemma_sum_mono(ib, i + 1);
        }
        let d = t1 - t0;
        if d < rt_min {
            rt_min = d;
        }
        rt_sum = rt_sum + d;
        out_sum = out_sum + st.wrapping_sub(t0);
        in_sum = in_sum + t1.wrapping_sub(st);
        i = i + 1;
    }
    proof {
        assert(rt.subrange(0, rounds.len() as int) =~= rt);
        assert(ob.subrange(0, rounds.len() as int) =~= ob);
        assert(ib.subrange(0, rounds.len() as int) =~= ib);
    }
    let n = rounds.len() as u64;
    (rt_min, rt_sum / n, out_sum / n, in_sum / n)
}

/// The two stamps of a timestamped echo reply (see `on_echo_ts`).
pub fn echo_ts_stamps(out: &[u8]) -> (r: (u64, u64))
    requires
        out.len() >= 16,
    ensures
        r == (crate::multiboot::le_u64(out@, 0), crate::multiboot::le_u64(out@, 8)),
{
    (crate::multiboot::read_u64(out, 0), crate::multiboot::read_u64(out, 8))
}

/// The figures of the staged echo path from its measured calls `(t1, t2, t3, t4)`
/// (sent, seen by the server, answered, seen by the client): the mean outbound
/// leg, server work and inbound leg, each summed with wrapping, and the mean total
/// `t4 - t1`, whose sum must fit in 64 bits; all rounded down.
pub fn staged_stats(calls: &[(u64, u64, u64, u64)]) -> (r: (u64, u64, u64, u64))
    requires
        calls.len() > 0,
        forall|i: int| 0 <= i < calls.len() ==> (#[trigger] calls@[i]).0 <= calls@[i].3,
        seq_sum(Seq::new(calls@.len(), |i: int| (calls@[i].3 - calls@[i].0) as u64)) <= u64::MAX,
    ensures
        r.0 == wsum(Seq::new(calls@.len(), |i: int| wsub(calls@[i].1, calls@[i].0))) / calls@.len() as u64,
        r.1 == wsum(Seq::new(calls@.len(), |i: int| wsub(calls@[i].2, calls@[i].1))) / calls@.len() as u64,
        r.2 == wsum(Seq::new(calls@.len(), |i: int| wsub(calls@[i].3, calls@[i].2))) / calls@.len() as u64,
        r.3 == seq_sum(Seq::new(calls@.len(), |i: int| (calls@[i].3 - calls@[i].0) as u64)) / calls@.len() as int,
{
    let ghost ob = Seq::new(calls@.len(), |i: int| wsub(calls@[i].1, calls@[i].0));
    let ghost sw = Seq::new(calls@.len(), |i: int| wsub(calls@[i].2, calls@[i].1));
    let ghost ib = Seq::new(calls@.len(), |i: int| wsub(calls@[i].3, calls@[i].2));
    let ghost tt = Seq::new(calls@.len(), |i: int| (calls@[i].3 - calls@[i].0) as u64);
    let mut outb: u64 = 0;
    let mut srvw: u64 = 0;
    let mut inb: u64 = 0;
    let mut rt: u64 = 0;
    let mut i: usize = 0;
    while i < calls.len()
        invariant
            i <= calls.len(),
            ob == Seq::new(calls@.len(), |i: int| wsub(calls@[i].1, calls@[i].0)),
            sw == Seq::new(calls@.len(), |i: int| wsub(calls@[i].2, calls@[i].1)),
            ib == Seq::new(calls@.len(), |i: int| wsub(calls@[i].3, calls@[i].2)),
            tt == Seq::new(calls@.len(), |i: int| (calls@[i].3 - calls@[i].0) as u64),
            forall|k: int| 0 <= k < calls.len() ==> (#[trigger] calls@[k]).0 <= calls@[k].3,
            seq_sum(tt) <= u64::MAX,
            outb == wsum(ob.subrange(0, i as int)),
            srvw == wsum(sw.subrange(0, i as int)),
            inb == wsum(ib.subrange(0, i as int)),
            rt == seq_sum(tt.subrange(0, i as int)),
        decreases calls.len() - i,
    {
        let (t1, t2, t3, t4) = calls[i];
        proof {
            assert(ob.subrange(0, i + 1).drop_last() =~= ob.subrange(0, i as int));
            assert(sw.subrange(0, i + 1).drop_last() =~= sw.subrange(0, i as int));
            assert(ib.subrange(0, i + 1).drop_last() =~= ib.subrange(0, i as int));
            assert(tt.subrange(0, i + 1).drop_last() =~= tt.subrange(0, i as int));
            lemma_sum_mono(tt, i + 1);
        }
        outb = outb.wrapping_add(t2.wrapping_sub(t1));
        srvw = srvw.wrapping_add(t3.wrapping_sub(t2));
        inb = inb.wrapping_add(t4.wrapping_sub(t3));
        rt = rt + (t4 - t1);
        i = i + 1;
    }
    proof {
        assert(ob.subrange(0, calls.len() as int) =~= ob);
        assert(sw.subrange(0, calls.len() as int) =~= sw);
        assert(ib.subrange(0, calls.len() as int) =~= ib);
        assert(tt.subrange(0, calls.len() as int) =~= tt);
    }
    let n = calls.len() as u64;
    (outb / n, srvw / n, inb / n, rt / n)
}

/// The echo service answers a request with the request itself.
pub fn on_echo(req: &[u8]) -> (reply: Vec<u8>)
    ensures
        reply@ == req@,
{
    let mut r: Vec<u8> = Vec::new();
    append_bytes(&mut r, req);
    assert(r@ =~= req@);
    r
}

/// The timestamped echo: the two time-stamp counter readings, little endian.
pub fn on_echo_ts(t2: u64, t3: u64) -> (reply: Vec<u8>)
    ensures
        reply@.len() == 16,
        crate::multiboot::le_u64(reply@, 0) == t2,
        crate::multiboot::le_u64(reply@, 8) == t3,
{
    let mut r: Vec<u8> = Vec::new();
    let mut k: u64 = 0;
    while k < 8
        invariant
            k <= 8,
            r@.len() == k,
            forall|j: int| 0 <= j < k ==> #[trigger] r@[j] == ((t2 >> ((j * 8) as u64)) & 0xFF) as u8,
        decreases 8 - k,
    {
        r.push(((t2 >> (k * 8)) & 0xFF) as u8);
        k = k + 1;
    }
    while k < 16
        invariant
            8 <= k <= 16,
            r@.len() == k,
            forall|j: int| 0 <= j < 8 ==> #[trigger] r@[j] == ((t2 >> ((j * 8) as u64)) & 0xFF) as u8,
            forall|j: int| 8 <= j < k ==> #[trigger] r@[j] == ((t3 >> (((j - 8) * 8) as u64)) & 0xFF) as u8,
        decreases 16 - k,
    {
        r.push(((t3 >> ((k - 8) * 8)) & 0xFF) as u8);
        k = k + 1;
    }
    proof {
        lemma_le_u64_bytes(r@, 0, t2);
        lemma_le_u64_bytes(r@, 8, t3);
    }
    r
}

proof fn lemma_le_u64_bytes(s: Seq<u8>, off: int, v: u64)
    requires
        0 <= off,
        off + 8 <= s.len(),
        forall|j: int| 0 <= j < 8 ==> #[trigger] s[off + j] == ((v >> ((j * 8) as u64)) & 0xFF) as u8,
    ensures
        crate::multiboot::le_u64(s, off) == v,
{
    let b0 = s[off];
    let b1 = s[off + 1];
    let b2 = s[off + 2];
    let b3 = s[off + 3];
    let b4 = s[off + 4];
    let b5 = s[off + 5];
    let b6 = s[off + 6];
    let b7 = s[off + 7];
    assert(s[off + 0] == ((v >> 0u64) & 0xFF) as u8);
    assert(b1 == ((v >> 8u64) & 0xFF) as u8);
    assert(b2 == ((v >> 16u64) & 0xFF) as u8);
    assert(b3 == ((v >> 24u64) & 0xFF) as u8);
    assert(b4 == ((v >> 32u64) & 0xFF) as u8);
    assert(b5 == ((v >> 40u64) & 0xFF) as u8);
    assert(b6 == ((v >> 48u64) & 0xFF) as u8);
    assert(b7 == ((v >> 56u64) & 0xFF) as u8);
    assert((((b0 as u32) | ((b1 as u32) << 8u32) | ((b2 as u32) << 16u32) | ((b3 as u32) << 24u32)) as u64 | ((((b4 as u32) | ((b5
        as u32) << 8u32) | ((b6 as u32) << 16u32) | ((b7 as u32) << 24u32)) as u64) << 32u64)) == v) by (bit_vector)
        requires
            b0 == ((v >> 0u64) & 0xFF) as u8,
            b1 == ((v >> 8u64) & 0xFF) as u8,
            b2 == ((v >> 16u64) & 0xFF) as u8,
            b3 == ((v >> 24u64) & 0xFF) as u8,
            b4 == ((v >> 32u64) & 0xFF) as u8,
            b5 == ((v >> 40u64) & 0xFF) as u8,
            b6 == ((v >> 48u64) & 0xFF) as u8,
            b7 == ((v >> 56u64) & 0xFF) as u8,
    ;
}

} // verus!
