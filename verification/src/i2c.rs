use vstd::prelude::*;

verus! {

/// One step of a transfer on the I2C bus, driven by hand: a level put on
/// the clock line (SCL) or the data line (SDA), or a pause.
#[derive(Clone, Copy, PartialEq, Eq, Debug, Structural)]
pub enum BusStep {
    SclLow,
    SclHigh,
    SdaLow,
    SdaHigh,
    /// Sleep, in nanoseconds
    Wait(u32),
}

/// The pause between two changes of a line; the bus runs in standard mode
/// (100 kHz).
pub const BUS_PAUSE: u32 = 6;

/// Bit `i` of `byte`, counting from the least significant.
pub open spec fn bit(byte: u8, i: u8) -> bool {
    (byte >> i) & 1u8 == 1u8
}

/// The start sequence: the bus is pulled up, so pulling SDA and then SCL
/// down claims it.
pub open spec fn start_steps() -> Seq<BusStep> {
    seq![BusStep::SdaLow, BusStep::Wait(BUS_PAUSE), BusStep::SclLow, BusStep::Wait(BUS_PAUSE)]
}

/// The stop sequence: pulling SCL and then SDA up releases the bus.
pub open spec fn stop_steps() -> Seq<BusStep> {
    seq![BusStep::SclHigh, BusStep::Wait(BUS_PAUSE), BusStep::SdaHigh, BusStep::Wait(BUS_PAUSE)]
}

/// The steps that send bit `i` of `byte`: the bit on SDA while the clock is
/// low, then a clock pulse. SDA changes only while SCL is low, as I2C
/// requires: a change while SCL is high would read as a start or a stop.
pub open spec fn bit_steps(byte: u8, i: u8) -> Seq<BusStep> {
    seq![
        if bit(byte, i) {
            BusStep::SdaHigh
        } else {
            BusStep::SdaLow
        },
        BusStep::Wait(BUS_PAUSE),
        BusStep::SclHigh,
        BusStep::Wait(BUS_PAUSE),
        BusStep::SclLow,
        BusStep::Wait(BUS_PAUSE),
    ]
}

/// The steps that send the first `n` bits of `byte`, most significant bit
/// first.
pub open spec fn byte_steps_upto(byte: u8, n: nat) -> Seq<BusStep>
    decreases n,
{
    if n == 0 || n > 8 {
        Seq::empty()
    } else {
        byte_steps_upto(byte, (n - 1) as nat) + bit_steps(byte, (8 - n) as u8)
    }
}

/// The steps that send `byte`, most significant bit first.
pub open spec fn byte_steps(byte: u8) -> Seq<BusStep> {
    byte_steps_upto(byte, 8)
}

/// The steps that send the bytes of `data` in order.
pub open spec fn data_steps(data: Seq<u8>) -> Seq<BusStep>
    decreases data.len(),
{
    if data.len() == 0 {
        Seq::empty()
    } else {
        data_steps(data.drop_last()) + byte_steps(data.last())
    }
}

/// The whole transfer of `data`: start, the bytes, stop.
pub open spec fn transfer_steps(data: Seq<u8>) -> Seq<BusStep> {
    start_steps() + data_steps(data) + stop_steps()
}

/// The steps that send `data` on the bus, as a single master that assumes
/// the bus is always free. Neither the address nor acknowledgements are
/// sent or checked yet.
pub fn send_data_steps(data: &[u8]) -> (r: Vec<BusStep>)
    ensures
        r@ == transfer_steps(data@),
{
    let mut steps: Vec<BusStep> = Vec::new();
    //  === Start seq ===
    steps.push(BusStep::SdaLow);
    steps.push(BusStep::Wait(BUS_PAUSE));
    steps.push(BusStep::SclLow);
    steps.push(BusStep::Wait(BUS_PAUSE));
    assert(steps@ =~= start_steps());

    // === Send data ===
    let mut j: usize = 0;
    while j < data.len()
        invariant
            j <= data@.len(),
            steps@ == start_steps() + data_steps(data@.take(j as int)),
        decreases data@.len() - j,
    {
        let byte = data[j];
        let ghost before = steps@;
        let mut i: u8 = 0;
        while i < 8
            invariant
                i <= 8,
                steps@ == before + byte_steps_upto(byte, i as nat),
            decreases 8 - i,
        {
            // MSB order
            let k: u8 = 7 - i;
            assert(((byte & (1u8 << k)) > 0) == ((byte >> k) & 1u8 == 1u8)) by (bit_vector)
                requires
                    k < 8,
            ;
            if (byte & (1u8 << k)) > 0 {
                steps.push(BusStep::SdaHigh);
            } else {
                steps.push(BusStep::SdaLow);
            }
            steps.push(BusStep::Wait(BUS_PAUSE));
            steps.push(BusStep::SclHigh);
            steps.push(BusStep::Wait(BUS_PAUSE));
            steps.push(BusStep::SclLow);
            steps.push(BusStep::Wait(BUS_PAUSE));
            assert(steps@ =~= before + byte_steps_upto(byte, (i + 1) as nat));
            i += 1;
        }
        assert(data@.take(j as int + 1).drop_last() =~= data@.take(j as int));
        assert(steps@ =~= start_steps() + data_steps(data@.take(j as int + 1)));
        j += 1;
    }
    assert(data@.take(data@.len() as int) =~= data@);

    // === Stop seq ===
    steps.push(BusStep::SclHigh);
    steps.push(BusStep::Wait(BUS_PAUSE));
    steps.push(BusStep::SdaHigh);
    steps.push(BusStep::Wait(BUS_PAUSE));
    assert(steps@ =~= transfer_steps(data@));
    steps
}

/// Step `st` is the one that a bit send holds at position `phase` of its
/// six: the bit on SDA, pause, clock up, pause, clock down, pause.
pub open spec fn step_fits(st: BusStep, phase: int) -> bool {
    if phase == 0 {
        st is SdaLow || st is SdaHigh
    } else if phase == 2 {
        st == BusStep::SclHigh
    } else if phase == 4 {
        st == BusStep::SclLow
    } else {
        st == BusStep::Wait(BUS_PAUSE)
    }
}

/// `s` is made of whole bit sends, one after the other.
pub open spec fn clocked_bits(s: Seq<BusStep>) -> bool {
    &&& s.len() % 6 == 0
    &&& forall|k: int| 0 <= k < s.len() ==> #[trigger] step_fits(s[k], k % 6)
}

proof fn lemma_clocked_concat(a: Seq<BusStep>, b: Seq<BusStep>)
    requires
        clocked_bits(a),
        clocked_bits(b),
    ensures
        clocked_bits(a + b),
{
    let q: int = a.len() as int / 6;
    assert(a.len() == 6 * q);
    assert forall|k: int| 0 <= k < (a + b).len() implies #[trigger] step_fits((a + b)[k], k % 6) by {
        if k >= a.len() {
            let m = k - a.len();
            vstd::arithmetic::div_mod::lemma_mod_multiples_vanish(q, m, 6);
            assert(k == 6 * q + m);
            assert(step_fits(b[m], m % 6));
        }
    }
    vstd::arithmetic::div_mod::lemma_mod_multiples_vanish(q, b.len() as int, 6);
}

proof fn lemma_byte_steps_clocked(byte: u8, n: nat)
    ensures
        clocked_bits(byte_steps_upto(byte, n)),
    decreases n,
{
    if n == 0 || n > 8 {
    } else {
        lemma_byte_steps_clocked(byte, (n - 1) as nat);
        let b = bit_steps(byte, (8 - n) as u8);
        assert(clocked_bits(b)) by {
            assert forall|k: int| 0 <= k < b.len() implies #[trigger] step_fits(b[k], k % 6) by {
                assert(k % 6 == k);
            }
        }
        lemma_clocked_concat(byte_steps_upto(byte, (n - 1) as nat), b);
    }
}

proof fn lemma_data_steps_clocked(data: Seq<u8>)
    ensures
        clocked_bits(data_steps(data)),
    decreases data.len(),
{
    if data.len() > 0 {
        lemma_data_steps_clocked(data.drop_last());
        lemma_byte_steps_clocked(data.last(), 8);
        lemma_clocked_concat(data_steps(data.drop_last()), byte_steps(data.last()));
    }
}

/// Between the start and the stop of a transfer, SDA changes only while
/// SCL is low: every step that sets SDA comes right after the clock went
/// down and a pause.
pub proof fn law_data_changes_only_while_clock_low(data: Seq<u8>)
    ensures
        forall|k: int|
            #![trigger transfer_steps(data)[k]]
            0 < k < transfer_steps(data).len() - 2 && (transfer_steps(data)[k] is SdaLow
                || transfer_steps(data)[k] is SdaHigh) ==> transfer_steps(data)[k - 2]
                == BusStep::SclLow && transfer_steps(data)[k - 1] == BusStep::Wait(BUS_PAUSE),
{
    let d = data_steps(data);
    let t = transfer_steps(data);
    lemma_data_steps_clocked(data);
    assert forall|k: int|
        #![trigger t[k]]
        0 < k < t.len() - 2 && (t[k] is SdaLow || t[k] is SdaHigh) implies t[k - 2]
        == BusStep::SclLow && t[k - 1] == BusStep::Wait(BUS_PAUSE) by {
        if k < 4 {
            assert(t[k] == start_steps()[k]);
        } else if k < 4 + d.len() {
            let m = k - 4;
            assert(t[k] == d[m]);
            assert(step_fits(d[m], m % 6));
            assert(m % 6 == 0);
            if m == 0 {
            } else {
                assert(step_fits(d[m - 2], (m - 2) % 6));
                assert(step_fits(d[m - 1], (m - 1) % 6));
                assert((m - 2) % 6 == 4 && (m - 1) % 6 == 5) by {
                    vstd::arithmetic::div_mod::lemma_fundamental_div_mod(m, 6);
                }
                assert(t[k - 2] == d[m - 2]);
                assert(t[k - 1] == d[m - 1]);
            }
        } else {
            assert(t[k] == stop_steps()[k - 4 - d.len()]);
        }
    }
}

/// The bytes of a transfer go out in order: sending `a` then `b` is the
/// steps of `a` followed by those of `b`, and the transfer of `a + b` is
/// the start, the bytes of `a`, the bytes of `b` and the stop.
pub proof fn law_bytes_sent_in_order(a: Seq<u8>, b: Seq<u8>)
    ensures
        data_steps(a + b) == data_steps(a) + data_steps(b),
        transfer_steps(a + b) == start_steps() + data_steps(a) + data_steps(b) + stop_steps(),
    decreases b.len(),
{
    if b.len() == 0 {
        assert(a + b =~= a);
        assert(data_steps(a) + data_steps(b) =~= data_steps(a));
    } else {
        law_bytes_sent_in_order(a, b.drop_last());
        assert((a + b).drop_last() =~= a + b.drop_last());
        assert((a + b).last() == b.last());
        assert(data_steps(a + b) =~= data_steps(a) + data_steps(b));
    }
    assert(transfer_steps(a + b) =~= start_steps() + data_steps(a) + data_steps(b) + stop_steps());
}

/// Sending the single byte `x` is the steps of that byte.
pub proof fn law_one_byte(x: u8)
    ensures
        data_steps(seq![x]) == byte_steps(x),
{
    let one = seq![x];
    assert(one.drop_last() =~= Seq::<u8>::empty());
    assert(one.last() == x);
    assert(data_steps(Seq::<u8>::empty()) == Seq::<BusStep>::empty());
    assert(data_steps(one) == data_steps(one.drop_last()) + byte_steps(one.last()));
    assert(data_steps(one) =~= byte_steps(x));
}

proof fn lemma_byte_steps_index(byte: u8, n: nat, j: int, p: int)
    requires
        n <= 8,
        0 <= j < n,
        0 <= p < 6,
    ensures
        byte_steps_upto(byte, n).len() == 6 * n,
        byte_steps_upto(byte, n)[6 * j + p] == bit_steps(byte, (7 - j) as u8)[p],
    decreases n,
{
    if n > 0 {
        if j < n - 1 {
            lemma_byte_steps_index(byte, (n - 1) as nat, j, p);
        } else {
            if n > 1 {
                lemma_byte_steps_index(byte, (n - 1) as nat, 0, 0);
            } else {
                assert(byte_steps_upto(byte, 0).len() == 0);
            }
        }
    }
}

/// A byte goes out most significant bit first: the `j`-th bit send puts on
/// SDA the digit of weight `2^(7 - j)` of the byte, in binary.
pub proof fn law_bits_sent_most_significant_first(byte: u8, j: int)
    requires
        0 <= j < 8,
    ensures
        byte_steps(byte).len() == 48,
        byte_steps(byte)[6 * j] == if (byte as int / vstd::arithmetic::power2::pow2((7 - j) as nat) as int) % 2 == 1 {
            BusStep::SdaHigh
        } else {
            BusStep::SdaLow
        },
{
    lemma_byte_steps_index(byte, 8, j, 0);
    lemma_byte_steps_index(byte, 8, 0, 0);
    vstd::arithmetic::power2::lemma2_to64();
    let k = (7 - j) as u8;
    assert(bit(byte, k) == ((byte as int / vstd::arithmetic::power2::pow2(k as nat) as int) % 2 == 1)) by {
        if k == 0 {
            assert(((byte >> 0u8) & 1u8 == 1u8) == ((byte / 1) % 2 == 1)) by (bit_vector);
        } else if k == 1 {
            assert(((byte >> 1u8) & 1u8 == 1u8) == ((byte / 2) % 2 == 1)) by (bit_vector);
        } else if k == 2 {
            assert(((byte >> 2u8) & 1u8 == 1u8) == ((byte / 4) % 2 == 1)) by (bit_vector);
        } else if k == 3 {
            assert(((byte >> 3u8) & 1u8 == 1u8) == ((byte / 8) % 2 == 1)) by (bit_vector);
        } else if k == 4 {
            assert(((byte >> 4u8) & 1u8 == 1u8) == ((byte / 16) % 2 == 1)) by (bit_vector);
        } else if k == 5 {
            assert(((byte >> 5u8) & 1u8 == 1u8) == ((byte / 32) % 2 == 1)) by (bit_vector);
        } else if k == 6 {
            assert(((byte >> 6u8) & 1u8 == 1u8) == ((byte / 64) % 2 == 1)) by (bit_vector);
        } else {
            assert(((byte >> 7u8) & 1u8 == 1u8) == ((byte / 128) % 2 == 1)) by (bit_vector);
        }
    }
}

} // verus!
