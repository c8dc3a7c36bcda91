//! Auxiliary-data channel: the data insertion and data extraction
//! devices of Figure 1 (clause 1.3).
//!
//! In Modes 2 and 3 one or two least-significant bits of the lower
//! sub-band code-word `I_L` carry auxiliary data instead of audio
//! (8 or 16 kbit/s). The octet layout is `I_H1 I_H2 I_L1 .. I_L6` with
//! `I_H1` transmitted first, so the auxiliary bits sit at bit 0
//! (`I_L6`) and, in Mode 3, bit 1 (`I_L5`); the bit at the higher
//! position is transmitted first.
//!
//! | Mode | Audio | Aux  | Aux bits per octet |
//! | ---- | ----- | ---- | ------------------ |
//! | 1    | 64 k  | 0 k  | 0                  |
//! | 2    | 56 k  | 8 k  | 1 (`I_L6`)         |
//! | 3    | 48 k  | 16 k | 2 (`I_L5`, `I_L6`) |
//!
//! The model: an inserter holding the queue `q` and the padding bit
//! `pad` sends, as its `k`-th auxiliary bit, `q[k]` while the queue
//! lasts and `pad` afterwards ([`aux_bit`]). Over a stream of octets in
//! one mode the extractor gets back exactly that sequence of bits
//! ([`lemma_stream_round_trip`]).

use vstd::prelude::*;

use crate::mode::{discard_spec, Mode};

verus! {

// -----------------------------------------------------------------------
// Bit accounting
// -----------------------------------------------------------------------

/// `2^e` for the bit positions `e` of the auxiliary field (0, 1 or 2).
pub open spec fn place(e: int) -> int {
    if e <= 0 {
        1
    } else if e == 1 {
        2
    } else {
        4
    }
}

/// `0` or `1` for a bit.
pub open spec fn bit_value(b: bool) -> int {
    if b {
        1
    } else {
        0
    }
}

/// The `k`-th auxiliary bit sent by an inserter holding `queue` with
/// padding bit `pad`: queued bits in order, then padding.
pub open spec fn aux_bit(queue: Seq<bool>, pad: bool, k: int) -> bool {
    if 0 <= k < queue.len() {
        queue[k]
    } else {
        pad
    }
}

/// The smaller of two integers.
pub open spec fn min_int(a: int, b: int) -> int {
    if a <= b {
        a
    } else {
        b
    }
}

/// What is left of `queue` after `k` bits were taken from its front.
pub open spec fn after_taking(queue: Seq<bool>, k: int) -> Seq<bool> {
    queue.skip(min_int(k, queue.len() as int))
}

/// The auxiliary field of one octet: the octet's `n` auxiliary bits,
/// the first one sent in the most significant place.
pub open spec fn substitute_field(m: Mode, queue: Seq<bool>, pad: bool) -> int {
    let n = discard_spec(m);
    if n == 0 {
        0
    } else if n == 1 {
        bit_value(aux_bit(queue, pad, 0))
    } else {
        2 * bit_value(aux_bit(queue, pad, 0)) + bit_value(aux_bit(queue, pad, 1))
    }
}

/// An octet after the insertion device: its auxiliary LSBs replaced by
/// the next auxiliary bits, every other bit kept.
pub open spec fn inserted_octet(m: Mode, queue: Seq<bool>, pad: bool, octet: u8) -> int {
    octet as int - (octet as int) % place(discard_spec(m)) + substitute_field(m, queue, pad)
}

/// A whole stream after the insertion device in mode `m`, starting
/// from `queue`: octet `i` carries the bits `n*i .. n*i + n - 1`.
pub open spec fn insert_stream(m: Mode, queue: Seq<bool>, pad: bool, octets: Seq<u8>) -> Seq<u8> {
    Seq::new(
        octets.len(),
        |i: int|
            inserted_octet(
                m,
                after_taking(queue, discard_spec(m) * i),
                pad,
                octets[i],
            ) as u8,
    )
}

/// The auxiliary bit at position `p` (0 = first sent) of an octet.
pub open spec fn octet_bit(m: Mode, octet: u8, p: int) -> bool {
    (octet as int / place(discard_spec(m) - 1 - p)) % 2 == 1
}

/// The auxiliary bits of one octet, in the order sent.
pub open spec fn octet_bits(m: Mode, octet: u8) -> Seq<bool> {
    Seq::new(discard_spec(m) as nat, |p: int| octet_bit(m, octet, p))
}

/// The auxiliary bits of a stream of octets, in the order sent.
pub open spec fn stream_bits(m: Mode, octets: Seq<u8>) -> Seq<bool> {
    let n = discard_spec(m);
    Seq::new((n * octets.len()) as nat, |j: int| octet_bit(m, octets[j / n], j % n))
}

/// Number of auxiliary bits carried in each octet (0 / 1 / 2); the
/// same as the number of LSBs the decoder discards in that mode.
pub fn aux_bits_per_octet(mode: Mode) -> (r: u8)
    ensures
        r == discard_spec(mode),
{
    mode.lsbs_to_discard()
}

/// Bit rate (kbit/s) of the auxiliary data channel: 8 kHz octet rate
/// times the auxiliary bits per octet.
pub fn aux_bit_rate_kbps(mode: Mode) -> (r: u32)
    ensures
        r == 8 * discard_spec(mode),
{
    8 * aux_bits_per_octet(mode) as u32
}

/// Mask of the LSB positions overwritten by the insertion device.
fn aux_lsb_mask(mode: Mode) -> (r: u8)
    ensures
        r == place(discard_spec(mode)) - 1,
{
    match mode {
        Mode::Mode1 => 0,
        Mode::Mode2 => 0b1,
        Mode::Mode3 => 0b11,
    }
}

/// The auxiliary field of a byte, bit by bit.
proof fn lemma_field_bits()
    by (bit_vector)
    ensures
        forall|s: u8, v: u8| s == 0 && v <= 1 ==> #[trigger] (s | (v << 1u8)) == s + 2 * v,
        forall|s: u8, v: u8|
            (s == 0 || s == 2) && v <= 1 ==> #[trigger] (s | (v << 0u8)) == s + v,
        forall|o: u8, s: u8| s <= 1 ==> #[trigger] ((o & !1u8) | s) == o - o % 2 + s,
        forall|o: u8, s: u8| s <= 3 ==> #[trigger] ((o & !3u8) | s) == o - o % 4 + s,
        forall|o: u8| (#[trigger] ((o >> 1u8) & 1u8) != 0) == ((o / 2) % 2 == 1),
        forall|o: u8| (#[trigger] ((o >> 0u8) & 1u8) != 0) == (o % 2 == 1),
{
}

// -----------------------------------------------------------------------
// Data insertion device
// -----------------------------------------------------------------------

/// Data insertion device (transmit side of Figure 1).
///
/// Holds a FIFO of auxiliary bits and substitutes them into the LSBs of
/// each octet's `I_L` field; when the FIFO is empty the padding bit is
/// sent instead, so the audio path never stalls. Mode 1 passes octets
/// through untouched.
#[derive(Debug, Clone)]
pub struct DataInserter {
    mode: Mode,
    /// Queued auxiliary bits, oldest first.
    queue: std::collections::VecDeque<bool>,
    /// Bit sent when the queue is empty.
    padding: bool,
    /// Queued bits sent so far.
    drained: u64,
    /// Padding bits sent so far.
    padded: u64,
}

/// Bit accounting of an insertion device: of `pushed` auxiliary bits
/// queued in all, `flushed` were dropped unsent and the rest were sent
/// or still wait; the `slots` auxiliary positions of the octets inserted
/// so far each carried a sent bit or a padding bit. A new device is
/// accounted with all three at zero, and every call keeps the
/// accounting (with the counts it adds).
pub open spec fn accounted(ins: DataInserter, pushed: int, flushed: int, slots: int) -> bool {
    &&& ins.drained_view() + ins.queue_view().len() + flushed == pushed
    &&& ins.drained_view() + ins.padded_view() == slots
}

impl DataInserter {
    /// Current mode.
    pub closed spec fn mode_view(&self) -> Mode {
        self.mode
    }

    /// Queued auxiliary bits, first to be sent at index 0.
    pub closed spec fn queue_view(&self) -> Seq<bool> {
        self.queue@
    }

    /// The padding bit.
    pub closed spec fn padding_view(&self) -> bool {
        self.padding
    }

    /// Queued bits sent so far.
    pub closed spec fn drained_view(&self) -> u64 {
        self.drained
    }

    /// Padding bits sent so far.
    pub closed spec fn padded_view(&self) -> u64 {
        self.padded
    }

    /// A new device in `mode`, with an empty queue and padding bit 0.
    pub fn new(mode: Mode) -> (r: Self)
        ensures
            r.mode_view() == mode,
            r.queue_view() == Seq::<bool>::empty(),
            !r.padding_view(),
            r.drained_view() == 0,
            r.padded_view() == 0,
            accounted(r, 0, 0, 0),
    {
        DataInserter {
            mode,
            queue: std::collections::VecDeque::new(),
            padding: false,
            drained: 0,
            padded: 0,
        }
    }

    /// Current mode of the device.
    pub fn mode(&self) -> (r: Mode)
        ensures
            r == self.mode_view(),
    {
        self.mode
    }

    /// Switch mode on an octet boundary; the queue is kept.
    pub fn set_mode(&mut self, mode: Mode)
        ensures
            final(self).mode_view() == mode,
            final(self).queue_view() == old(self).queue_view(),
            final(self).padding_view() == old(self).padding_view(),
            final(self).drained_view() == old(self).drained_view(),
            final(self).padded_view() == old(self).padded_view(),
            forall|p: int, f: int, n: int| accounted(*old(self), p, f, n) ==> #[trigger] accounted(*final(self), p, f, n),
    {
        self.mode = mode;
    }

    /// Choose the bit sent when the queue is empty.
    pub fn set_padding_bit(&mut self, bit: bool)
        ensures
            final(self).padding_view() == bit,
            final(self).mode_view() == old(self).mode_view(),
            final(self).queue_view() == old(self).queue_view(),
            final(self).drained_view() == old(self).drained_view(),
            final(self).padded_view() == old(self).padded_view(),
            forall|p: int, f: int, n: int| accounted(*old(self), p, f, n) ==> #[trigger] accounted(*final(self), p, f, n),
    {
        self.padding = bit;
    }

    /// Number of auxiliary bits waiting to be sent.
    pub fn queued_bits(&self) -> (r: usize)
        ensures
            r == self.queue_view().len(),
    {
        self.queue.len()
    }

    /// Number of queued bits sent so far (padding excluded).
    pub fn aux_bits_drained(&self) -> (r: u64)
        ensures
            r == self.drained_view(),
    {
        self.drained
    }

    /// Number of padding bits sent so far.
    pub fn padding_bits_inserted(&self) -> (r: u64)
        ensures
            r == self.padded_view(),
    {
        self.padded
    }

    /// Auxiliary channel bit rate (kbit/s) of the current mode.
    pub fn aux_bit_rate_kbps(&self) -> (r: u32)
        ensures
            r == 8 * discard_spec(self.mode_view()),
    {
        aux_bit_rate_kbps(self.mode)
    }

    /// Queue one auxiliary bit behind the others.
    pub fn push_aux_bit(&mut self, bit: bool)
        ensures
            final(self).queue_view() == old(self).queue_view().push(bit),
            final(self).mode_view() == old(self).mode_view(),
            final(self).padding_view() == old(self).padding_view(),
            final(self).drained_view() == old(self).drained_view(),
            final(self).padded_view() == old(self).padded_view(),
            forall|p: int, f: int, n: int| accounted(*old(self), p, f, n) ==> #[trigger] accounted(*final(self), p + 1, f, n),
    {
        self.queue.push_back(bit);
    }

    /// Queue auxiliary bits, the first element to be sent first.
    pub fn push_aux_bits(&mut self, bits: &[bool])
        ensures
            final(self).queue_view() == old(self).queue_view() + bits@,
            final(self).mode_view() == old(self).mode_view(),
            final(self).padding_view() == old(self).padding_view(),
            final(self).drained_view() == old(self).drained_view(),
            final(self).padded_view() == old(self).padded_view(),
            forall|p: int, f: int, n: int| accounted(*old(self), p, f, n) ==> #[trigger] accounted(*final(self), p + bits@.len(), f, n),
    {
        let mut i: usize = 0;
        while i < bits.len()
            invariant
                i <= bits.len(),
                self.queue@ == old(self).queue@ + bits@.take(i as int),
                self.mode == old(self).mode,
                self.padding == old(self).padding,
                self.drained == old(self).drained,
                self.padded == old(self).padded,
            decreases bits.len() - i,
        {
            self.queue.push_back(bits[i]);
            assert(bits@.take(i as int + 1) == bits@.take(i as int).push(bits@[i as int]));
            i = i + 1;
        }
        assert(bits@.take(bits.len() as int) == bits@);
    }

    /// Substitute the next auxiliary bits into one octet.
    ///
    /// Mode 1 returns the octet unchanged; Mode 2 replaces bit 0; Mode 3
    /// replaces bits 1 and 0, the first bit taken going to bit 1. Bits
    /// come from the queue while it lasts, then from the padding bit.
    pub fn insert(&mut self, octet: u8) -> (r: u8)
        requires
            old(self).drained_view() + min_int(
                discard_spec(old(self).mode_view()),
                old(self).queue_view().len() as int,
            ) <= u64::MAX,
            old(self).padded_view() + discard_spec(old(self).mode_view()) - min_int(
                discard_spec(old(self).mode_view()),
                old(self).queue_view().len() as int,
            ) <= u64::MAX,
        ensures
            r == inserted_octet(
                old(self).mode_view(),
                old(self).queue_view(),
                old(self).padding_view(),
                octet,
            ),
            final(self).queue_view() == after_taking(
                old(self).queue_view(),
                discard_spec(old(self).mode_view()),
            ),
            final(self).drained_view() == old(self).drained_view() + min_int(
                discard_spec(old(self).mode_view()),
                old(self).queue_view().len() as int,
            ),
            final(self).padded_view() == old(self).padded_view() + discard_spec(
                old(self).mode_view(),
            ) - min_int(discard_spec(old(self).mode_view()), old(self).queue_view().len() as int),
            final(self).mode_view() == old(self).mode_view(),
            final(self).padding_view() == old(self).padding_view(),
            forall|p: int, f: int, n: int| accounted(*old(self), p, f, n) ==> #[trigger] accounted(*final(self), p, f, n + discard_spec(old(self).mode_view())),
    {
        let n: u8 = aux_bits_per_octet(self.mode);
        if n == 0 {
            assert(after_taking(self.queue@, 0) == self.queue@);
            proof {
                assert(octet % 1 == 0);
            }
            return octet;
        }
        let mask: u8 = aux_lsb_mask(self.mode);
        let ghost q0: Seq<bool> = self.queue@;
        let ghost pad: bool = self.padding;
        let mut substitute: u8 = 0;
        // The first bit taken is sent first, so it goes to the highest
        // of the substituted positions.
        let mut shift: u8 = n;
        while shift > 0
            invariant
                1 <= n <= 2,
                n == discard_spec(self.mode),
                self.mode == old(self).mode,
                self.padding == pad,
                pad == old(self).padding,
                q0 == old(self).queue@,
                shift <= n,
                self.queue@ == after_taking(q0, n - shift),
                self.drained == old(self).drained + min_int(n - shift, q0.len() as int),
                self.padded == old(self).padded + (n - shift) - min_int(
                    n - shift,
                    q0.len() as int,
                ),
                old(self).drained + min_int(n as int, q0.len() as int) <= u64::MAX,
                old(self).padded + n - min_int(n as int, q0.len() as int) <= u64::MAX,
                substitute == (if n - shift == 0 {
                    0
                } else if n == 1 || n - shift == 2 {
                    substitute_field(self.mode, q0, pad)
                } else {
                    2 * bit_value(aux_bit(q0, pad, 0))
                }),
            decreases shift,
        {
            shift = shift - 1;
            let ghost taken: int = (n - 1 - shift) as int;
            proof {
                lemma_take_one(q0, taken);
            }
            let bit: bool = match self.queue.pop_front() {
                Some(b) => {
                    self.drained = self.drained + 1;
                    b
                },
                None => {
                    self.padded = self.padded + 1;
                    self.padding
                },
            };
            proof {
                assert(bit == aux_bit(q0, pad, taken));
                assert(self.queue@ == after_taking(q0, taken + 1));
            }
            let v: u8 = if bit {
                1
            } else {
                0
            };
            proof {
                lemma_field_bits();
                let s = substitute;
                if shift == 1u8 {
                    assert(s == 0);
                    assert((s | (v << 1u8)) == s + 2 * v);
                } else {
                    assert(shift == 0u8);
                    assert((s | (v << 0u8)) == s + v);
                }
            }
            substitute = substitute | (v << shift);
        }
        let r: u8 = (octet & !mask) | substitute;
        proof {
            lemma_field_bits();
            let s = substitute;
            if n == 1 {
                assert(mask == 1);
                assert(((octet & !1u8) | s) == octet - octet % 2 + s);
            } else {
                assert(mask == 3);
                assert(((octet & !3u8) | s) == octet - octet % 4 + s);
            }
        }
        r
    }

    /// [`Self::insert`] applied to every octet of `input`, in order; the
    /// results are appended to `out`.
    pub fn insert_into(&mut self, input: &[u8], out: &mut Vec<u8>)
        requires
            old(self).drained_view() + min_int(
                discard_spec(old(self).mode_view()) * input.len(),
                old(self).queue_view().len() as int,
            ) <= u64::MAX,
            old(self).padded_view() + discard_spec(old(self).mode_view()) * input.len() - min_int(
                discard_spec(old(self).mode_view()) * input.len(),
                old(self).queue_view().len() as int,
            ) <= u64::MAX,
        ensures
            final(out)@ == old(out)@ + insert_stream(
                old(self).mode_view(),
                old(self).queue_view(),
                old(self).padding_view(),
                input@,
            ),
            final(self).queue_view() == after_taking(
                old(self).queue_view(),
                discard_spec(old(self).mode_view()) * input.len(),
            ),
            final(self).drained_view() == old(self).drained_view() + min_int(
                discard_spec(old(self).mode_view()) * input.len(),
                old(self).queue_view().len() as int,
            ),
            final(self).padded_view() == old(self).padded_view() + discard_spec(
                old(self).mode_view(),
            ) * input.len() - min_int(
                discard_spec(old(self).mode_view()) * input.len(),
                old(self).queue_view().len() as int,
            ),
            final(self).mode_view() == old(self).mode_view(),
            final(self).padding_view() == old(self).padding_view(),
            forall|p: int, f: int, n: int| accounted(*old(self), p, f, n) ==> #[trigger] accounted(*final(self), p, f, n + discard_spec(old(self).mode_view()) * input.len()),
    {
        let ghost m: Mode = self.mode;
        let ghost q0: Seq<bool> = self.queue@;
        let ghost pad: bool = self.padding;
        let ghost n: int = discard_spec(m);
        let mut i: usize = 0;
        while i < input.len()
            invariant
                i <= input.len(),
                self.mode == m,
                self.padding == pad,
                m == old(self).mode,
                pad == old(self).padding,
                q0 == old(self).queue@,
                n == discard_spec(m),
                self.queue@ == after_taking(q0, n * i),
                self.drained == old(self).drained + min_int(n * i, q0.len() as int),
                self.padded == old(self).padded + n * i - min_int(n * i, q0.len() as int),
                old(self).drained + min_int(n * input.len(), q0.len() as int) <= u64::MAX,
                old(self).padded + n * input.len() - min_int(n * input.len(), q0.len() as int)
                    <= u64::MAX,
                out@ == old(out)@ + insert_stream(m, q0, pad, input@.take(i as int)),
            decreases input.len() - i,
        {
            proof {
                lemma_take_more(q0, n * i, n);
                lemma_counts_grow(n, i as int, input.len() as int, q0.len() as int);
            }
            let o: u8 = self.insert(input[i]);
            out.push(o);
            proof {
                assert(n * (i + 1) == n * i + n) by (nonlinear_arith);
                assert(insert_stream(m, q0, pad, input@.take(i as int + 1)) =~= insert_stream(
                    m,
                    q0,
                    pad,
                    input@.take(i as int),
                ).push(o));
            }
            i = i + 1;
        }
        assert(input@.take(input.len() as int) == input@);
    }

    /// [`Self::insert`] applied to every octet of `input`, in order.
    pub fn insert_slice(&mut self, input: &[u8]) -> (r: Vec<u8>)
        requires
            old(self).drained_view() + min_int(
                discard_spec(old(self).mode_view()) * input.len(),
                old(self).queue_view().len() as int,
            ) <= u64::MAX,
            old(self).padded_view() + discard_spec(old(self).mode_view()) * input.len() - min_int(
                discard_spec(old(self).mode_view()) * input.len(),
                old(self).queue_view().len() as int,
            ) <= u64::MAX,
        ensures
            r@ == insert_stream(
                old(self).mode_view(),
                old(self).queue_view(),
                old(self).padding_view(),
                input@,
            ),
            final(self).queue_view() == after_taking(
                old(self).queue_view(),
                discard_spec(old(self).mode_view()) * input.len(),
            ),
            final(self).drained_view() == old(self).drained_view() + min_int(
                discard_spec(old(self).mode_view()) * input.len(),
                old(self).queue_view().len() as int,
            ),
            final(self).padded_view() == old(self).padded_view() + discard_spec(
                old(self).mode_view(),
            ) * input.len() - min_int(
                discard_spec(old(self).mode_view()) * input.len(),
                old(self).queue_view().len() as int,
            ),
            final(self).mode_view() == old(self).mode_view(),
            final(self).padding_view() == old(self).padding_view(),
            forall|p: int, f: int, n: int| accounted(*old(self), p, f, n) ==> #[trigger] accounted(*final(self), p, f, n + discard_spec(old(self).mode_view()) * input.len()),
    {
        let mut out: Vec<u8> = Vec::with_capacity(input.len());
        self.insert_into(input, &mut out);
        assert(out@ =~= Seq::<u8>::empty() + insert_stream(
            old(self).mode_view(),
            old(self).queue_view(),
            old(self).padding_view(),
            input@,
        ));
        out
    }

    /// [`Self::insert`] applied in place to every octet of `octets`.
    pub fn insert_in_place(&mut self, octets: &mut [u8])
        requires
            old(self).drained_view() + min_int(
                discard_spec(old(self).mode_view()) * old(octets)@.len(),
                old(self).queue_view().len() as int,
            ) <= u64::MAX,
            old(self).padded_view() + discard_spec(old(self).mode_view()) * old(octets)@.len()
                - min_int(
                discard_spec(old(self).mode_view()) * old(octets)@.len(),
                old(self).queue_view().len() as int,
            ) <= u64::MAX,
        ensures
            final(octets)@ == insert_stream(
                old(self).mode_view(),
                old(self).queue_view(),
                old(self).padding_view(),
                old(octets)@,
            ),
            final(self).queue_view() == after_taking(
                old(self).queue_view(),
                discard_spec(old(self).mode_view()) * old(octets)@.len(),
            ),
            final(self).drained_view() == old(self).drained_view() + min_int(
                discard_spec(old(self).mode_view()) * old(octets)@.len(),
                old(self).queue_view().len() as int,
            ),
            final(self).padded_view() == old(self).padded_view() + discard_spec(
                old(self).mode_view(),
            ) * old(octets)@.len() - min_int(
                discard_spec(old(self).mode_view()) * old(octets)@.len(),
                old(self).queue_view().len() as int,
            ),
            final(self).mode_view() == old(self).mode_view(),
            final(self).padding_view() == old(self).padding_view(),
            forall|p: int, f: int, n: int| accounted(*old(self), p, f, n) ==> #[trigger] accounted(*final(self), p, f, n + discard_spec(old(self).mode_view()) * old(octets)@.len()),
    {
        let ghost m: Mode = self.mode;
        let ghost q0: Seq<bool> = self.queue@;
        let ghost pad: bool = self.padding;
        let ghost n: int = discard_spec(m);
        let ghost orig: Seq<u8> = octets@;
        let mut i: usize = 0;
        while i < octets.len()
            invariant
                i <= octets.len(),
                octets@.len() == orig.len(),
                orig == old(octets)@,
                self.mode == m,
                self.padding == pad,
                m == old(self).mode,
                pad == old(self).padding,
                q0 == old(self).queue@,
                n == discard_spec(m),
                self.queue@ == after_taking(q0, n * i),
                self.drained == old(self).drained + min_int(n * i, q0.len() as int),
                self.padded == old(self).padded + n * i - min_int(n * i, q0.len() as int),
                old(self).drained + min_int(n * orig.len(), q0.len() as int) <= u64::MAX,
                old(self).padded + n * orig.len() - min_int(n * orig.len(), q0.len() as int)
                    <= u64::MAX,
                octets@.take(i as int) == insert_stream(m, q0, pad, orig.take(i as int)),
                octets@.skip(i as int) == orig.skip(i as int),
            decreases octets.len() - i,
        {
            proof {
                lemma_take_more(q0, n * i, n);
                lemma_counts_grow(n, i as int, orig.len() as int, q0.len() as int);
                assert(octets@[i as int] == orig.skip(i as int)[0]);
            }
            let o: u8 = self.insert(octets[i]);
            let ghost prev: Seq<u8> = octets@;
            octets[i] = o;
            proof {
                assert(n * (i + 1) == n * i + n) by (nonlinear_arith);
                assert(octets@ == prev.update(i as int, o));
                let lhs = octets@.take(i as int + 1);
                let rhs = insert_stream(m, q0, pad, orig.take(i as int + 1));
                assert forall|k: int| 0 <= k < i implies lhs[k] == rhs[k] by {
                    assert(lhs[k] == prev.take(i as int)[k]);
                    assert(orig.take(i as int + 1)[k] == orig.take(i as int)[k]);
                }
                assert(octets@.take(i as int + 1) =~= insert_stream(
                    m,
                    q0,
                    pad,
                    orig.take(i as int + 1),
                ));
                assert forall|k: int| 0 <= k < orig.len() - i - 1 implies #[trigger] octets@.skip(i as int + 1)[k]
                    == orig.skip(i as int + 1)[k] by {
                    assert(prev.skip(i as int)[k + 1] == orig.skip(i as int)[k + 1]);
                }
                assert(octets@.skip(i as int + 1) =~= orig.skip(i as int + 1));
            }
            i = i + 1;
        }
        assert(octets@ == octets@.take(octets@.len() as int));
        assert(orig == orig.take(orig.len() as int));
    }

    /// Drop every queued auxiliary bit; the audio side is unaffected.
    pub fn flush_queue(&mut self)
        ensures
            final(self).queue_view() == Seq::<bool>::empty(),
            final(self).mode_view() == old(self).mode_view(),
            final(self).padding_view() == old(self).padding_view(),
            final(self).drained_view() == old(self).drained_view(),
            final(self).padded_view() == old(self).padded_view(),
            forall|p: int, f: int, n: int| accounted(*old(self), p, f, n) ==> #[trigger] accounted(*final(self), p, f + old(self).queue_view().len(), n),
    {
        self.queue.clear();
    }
}

/// Taking `a` bits and then `b` more leaves what taking `a + b` leaves.
pub proof fn lemma_take_more(q: Seq<bool>, a: int, b: int)
    requires
        0 <= a,
        0 <= b,
    ensures
        after_taking(after_taking(q, a), b) == after_taking(q, a + b),
        min_int(a, q.len() as int) + min_int(b, after_taking(q, a).len() as int) == min_int(
            a + b,
            q.len() as int,
        ),
{
    assert(after_taking(after_taking(q, a), b) =~= after_taking(q, a + b));
}

/// The bits sent from what is left after taking `a` bits are the bits
/// sent from the whole queue, `a` places on.
pub proof fn lemma_aux_bit_after(q: Seq<bool>, pad: bool, a: int)
    requires
        0 <= a,
    ensures
        forall|p: int| 0 <= p ==> #[trigger] aux_bit(after_taking(q, a), pad, p) == aux_bit(q, pad, a + p),
{
}

/// Taking one bit from the front of what is left after `k` bits.
proof fn lemma_take_one(q: Seq<bool>, k: int)
    requires
        0 <= k,
    ensures
        k < q.len() ==> after_taking(q, k).len() > 0 && after_taking(q, k)[0] == q[k]
            && after_taking(q, k).subrange(1, after_taking(q, k).len() as int) == after_taking(
            q,
            k + 1,
        ),
        k >= q.len() ==> after_taking(q, k).len() == 0 && after_taking(q, k + 1) == after_taking(
            q,
            k,
        ),
{
    if k < q.len() {
        assert(after_taking(q, k).subrange(1, after_taking(q, k).len() as int) =~= after_taking(
            q,
            k + 1,
        ));
    } else {
        assert(after_taking(q, k + 1) =~= after_taking(q, k));
    }
}

/// Bookkeeping of the counters over a stream of octets.
proof fn lemma_counts_grow(n: int, i: int, len: int, qlen: int)
    requires
        0 <= n <= 2,
        0 <= i < len,
        0 <= qlen,
    ensures
        min_int(n * i, qlen) <= min_int(n * (i + 1), qlen) <= min_int(n * len, qlen),
        n * (i + 1) - min_int(n * (i + 1), qlen) <= n * len - min_int(n * len, qlen),
        n * i <= n * (i + 1) <= n * len,
        n * (i + 1) == n * i + n,
{
    assert(n * i <= n * (i + 1) <= n * len) by (nonlinear_arith)
        requires
            0 <= n,
            0 <= i < len,
    ;
    assert(n * (i + 1) == n * i + n) by (nonlinear_arith);
    assert(n * (i + 1) <= n * len) by (nonlinear_arith)
        requires
            0 <= n,
            i + 1 <= len,
    ;
}

// -----------------------------------------------------------------------
// Data extraction device
// -----------------------------------------------------------------------

/// Data extraction device (receive side of Figure 1).
///
/// Reads the 0, 1 or 2 auxiliary LSBs of each octet into a FIFO, the
/// first-sent bit first, and hands the octet on unchanged: the decoder
/// itself ignores those LSBs in the matching mode.
#[derive(Debug, Clone)]
pub struct DataExtractor {
    mode: Mode,
    queue: std::collections::VecDeque<bool>,
    extracted: u64,
}

impl DataExtractor {
    /// Current mode.
    pub closed spec fn mode_view(&self) -> Mode {
        self.mode
    }

    /// Extracted bits not yet handed out, oldest first.
    pub closed spec fn queue_view(&self) -> Seq<bool> {
        self.queue@
    }

    /// Auxiliary bits extracted so far.
    pub closed spec fn extracted_view(&self) -> u64 {
        self.extracted
    }

    /// A new device in `mode` with an empty queue.
    pub fn new(mode: Mode) -> (r: Self)
        ensures
            r.mode_view() == mode,
            r.queue_view() == Seq::<bool>::empty(),
            r.extracted_view() == 0,
    {
        DataExtractor { mode, queue: std::collections::VecDeque::new(), extracted: 0 }
    }

    /// Current mode of the device.
    pub fn mode(&self) -> (r: Mode)
        ensures
            r == self.mode_view(),
    {
        self.mode
    }

    /// Switch mode on an octet boundary; the queue is kept.
    pub fn set_mode(&mut self, mode: Mode)
        ensures
            final(self).mode_view() == mode,
            final(self).queue_view() == old(self).queue_view(),
            final(self).extracted_view() == old(self).extracted_view(),
    {
        self.mode = mode;
    }

    /// Number of auxiliary bits extracted so far.
    pub fn aux_bits_extracted(&self) -> (r: u64)
        ensures
            r == self.extracted_view(),
    {
        self.extracted
    }

    /// Auxiliary channel bit rate (kbit/s) of the current mode.
    pub fn aux_bit_rate_kbps(&self) -> (r: u32)
        ensures
            r == 8 * discard_spec(self.mode_view()),
    {
        aux_bit_rate_kbps(self.mode)
    }

    /// Read the auxiliary bits of one octet into the queue, first-sent
    /// bit first, and return the octet unchanged.
    pub fn extract(&mut self, octet: u8) -> (r: u8)
        requires
            old(self).extracted_view() + discard_spec(old(self).mode_view()) <= u64::MAX,
        ensures
            r == octet,
            final(self).queue_view() == old(self).queue_view() + octet_bits(
                old(self).mode_view(),
                octet,
            ),
            final(self).extracted_view() == old(self).extracted_view() + discard_spec(
                old(self).mode_view(),
            ),
            final(self).mode_view() == old(self).mode_view(),
    {
        let n: u8 = aux_bits_per_octet(self.mode);
        if n == 0 {
            assert(octet_bits(self.mode, octet) =~= Seq::<bool>::empty());
            assert(self.queue@ =~= self.queue@ + Seq::<bool>::empty());
            return octet;
        }
        let mut shift: u8 = n;
        while shift > 0
            invariant
                1 <= n <= 2,
                n == discard_spec(self.mode),
                self.mode == old(self).mode,
                shift <= n,
                self.queue@ == old(self).queue@ + octet_bits(self.mode, octet).take(n - shift),
                self.extracted == old(self).extracted + (n - shift),
                old(self).extracted + n <= u64::MAX,
            decreases shift,
        {
            shift = shift - 1;
            let bit: bool = ((octet >> shift) & 1) != 0;
            proof {
                lemma_field_bits();
                if shift == 1u8 {
                    assert((((octet >> 1u8) & 1u8) != 0) == ((octet / 2) % 2 == 1));
                } else {
                    assert((((octet >> 0u8) & 1u8) != 0) == (octet % 2 == 1));
                }
                assert(bit == octet_bit(self.mode, octet, n - 1 - shift));
                assert(octet_bits(self.mode, octet).take(n - shift) =~= octet_bits(
                    self.mode,
                    octet,
                ).take(n - 1 - shift).push(bit));
            }
            self.queue.push_back(bit);
            self.extracted = self.extracted + 1;
        }
        assert(octet_bits(self.mode, octet).take(n as int) =~= octet_bits(self.mode, octet));
        octet
    }

    /// [`Self::extract`] applied to every octet of `input`, in order;
    /// the octets are returned unchanged.
    pub fn extract_slice<'a>(&mut self, input: &'a [u8]) -> (r: &'a [u8])
        requires
            old(self).extracted_view() + discard_spec(old(self).mode_view()) * input.len()
                <= u64::MAX,
        ensures
            r@ == input@,
            final(self).queue_view() == old(self).queue_view() + stream_bits(
                old(self).mode_view(),
                input@,
            ),
            final(self).extracted_view() == old(self).extracted_view() + discard_spec(
                old(self).mode_view(),
            ) * input.len(),
            final(self).mode_view() == old(self).mode_view(),
    {
        let ghost m: Mode = self.mode;
        let ghost n: int = discard_spec(m);
        let mut i: usize = 0;
        while i < input.len()
            invariant
                i <= input.len(),
                self.mode == m,
                m == old(self).mode,
                n == discard_spec(m),
                self.queue@ == old(self).queue@ + stream_bits(m, input@.take(i as int)),
                self.extracted == old(self).extracted + n * i,
                old(self).extracted + n * input.len() <= u64::MAX,
            decreases input.len() - i,
        {
            proof {
                lemma_counts_grow(n, i as int, input.len() as int, 0);
            }
            let _ = self.extract(input[i]);
            proof {
                lemma_stream_bits_push(m, input@.take(i as int), input@[i as int]);
                assert(input@.take(i as int + 1) == input@.take(i as int).push(input@[i as int]));
            }
            i = i + 1;
        }
        assert(input@.take(input.len() as int) == input@);
        input
    }

    /// The next queued auxiliary bit, if any.
    pub fn pop_aux_bit(&mut self) -> (r: Option<bool>)
        ensures
            old(self).queue_view().len() == 0 ==> r is None && final(self).queue_view()
                == old(self).queue_view(),
            old(self).queue_view().len() > 0 ==> r == Some(old(self).queue_view()[0])
                && final(self).queue_view() == old(self).queue_view().drop_first(),
            final(self).mode_view() == old(self).mode_view(),
            final(self).extracted_view() == old(self).extracted_view(),
    {
        self.queue.pop_front()
    }

    /// Hand out up to `n` queued auxiliary bits, oldest first.
    pub fn drain_aux_bits(&mut self, n: usize) -> (r: Vec<bool>)
        ensures
            r@ == old(self).queue_view().take(
                min_int(n as int, old(self).queue_view().len() as int),
            ),
            final(self).queue_view() == after_taking(old(self).queue_view(), n as int),
            final(self).mode_view() == old(self).mode_view(),
            final(self).extracted_view() == old(self).extracted_view(),
    {
        let take: usize = if n < self.queue.len() {
            n
        } else {
            self.queue.len()
        };
        let ghost q0: Seq<bool> = self.queue@;
        let mut out: Vec<bool> = Vec::with_capacity(take);
        let mut k: usize = 0;
        while k < take
            invariant
                take <= q0.len(),
                take == min_int(n as int, q0.len() as int),
                q0 == old(self).queue@,
                k <= take,
                out@ == q0.take(k as int),
                self.queue@ == q0.skip(k as int),
                self.mode == old(self).mode,
                self.extracted == old(self).extracted,
            decreases take - k,
        {
            match self.queue.pop_front() {
                Some(b) => {
                    out.push(b);
                },
                None => {},
            }
            assert(q0.take(k as int + 1) == q0.take(k as int).push(q0[k as int]));
            assert(q0.skip(k as int).drop_first() == q0.skip(k as int + 1));
            k = k + 1;
        }
        out
    }

    /// Number of extracted bits not yet handed out.
    pub fn queued_bits(&self) -> (r: usize)
        ensures
            r == self.queue_view().len(),
    {
        self.queue.len()
    }

    /// Drop every queued auxiliary bit.
    pub fn flush_queue(&mut self)
        ensures
            final(self).queue_view() == Seq::<bool>::empty(),
            final(self).mode_view() == old(self).mode_view(),
            final(self).extracted_view() == old(self).extracted_view(),
    {
        self.queue.clear();
    }
}

/// The bits of a stream grow by the bits of the octet appended to it.
pub proof fn lemma_stream_bits_push(m: Mode, s: Seq<u8>, o: u8)
    ensures
        stream_bits(m, s.push(o)) == stream_bits(m, s) + octet_bits(m, o),
{
    let n = discard_spec(m);
    let lhs = stream_bits(m, s.push(o));
    let rhs = stream_bits(m, s) + octet_bits(m, o);
    assert(n * (s.len() + 1) == n * s.len() + n) by (nonlinear_arith);
    assert(lhs.len() == rhs.len());
    assert forall|j: int| 0 <= j < lhs.len() implies lhs[j] == rhs[j] by {
        match m {
            Mode::Mode1 => {
                assert(n * (s.len() + 1) == 0) by (nonlinear_arith)
                    requires
                        n == 0,
                ;
            },
            Mode::Mode2 => {
                assert(n * (s.len() + 1) == s.len() + 1 && n * s.len() == s.len())
                    by (nonlinear_arith)
                    requires
                        n == 1,
                ;
                assert(j / 1 == j && j % 1 == 0);
                if j < s.len() {
                    assert(lhs[j] == octet_bit(m, s[j], 0));
                } else {
                    assert(j == s.len());
                }
            },
            Mode::Mode3 => {
                assert(n * (s.len() + 1) == 2 * s.len() + 2 && n * s.len() == 2 * s.len())
                    by (nonlinear_arith)
                    requires
                        n == 2,
                ;
                assert(j / 2 <= s.len());
                if j < 2 * s.len() {
                    assert(j / 2 < s.len());
                } else {
                    assert(j / 2 == s.len());
                    assert(j % 2 == j - 2 * s.len());
                }
            },
        }
    }
    assert(lhs =~= rhs);
}

// -----------------------------------------------------------------------
// Laws
// -----------------------------------------------------------------------

/// Each auxiliary bit that the insertion device puts into an octet is
/// read back by the extraction device, in the order sent.
pub proof fn lemma_octet_round_trip(m: Mode, queue: Seq<bool>, pad: bool, octet: u8)
    ensures
        0 <= inserted_octet(m, queue, pad, octet) < 256,
        octet_bits(m, inserted_octet(m, queue, pad, octet) as u8) == Seq::new(
            discard_spec(m) as nat,
            |p: int| aux_bit(queue, pad, p),
        ),
{
    let o = inserted_octet(m, queue, pad, octet);
    let b0 = bit_value(aux_bit(queue, pad, 0));
    let b1 = bit_value(aux_bit(queue, pad, 1));
    let lhs = octet_bits(m, o as u8);
    let rhs = Seq::new(discard_spec(m) as nat, |p: int| aux_bit(queue, pad, p));
    match m {
        Mode::Mode1 => {
            assert(octet as int % 1 == 0);
        },
        Mode::Mode2 => {
            let k = octet as int / 2;
            assert(octet as int - octet as int % 2 == 2 * k);
            assert(o == 2 * k + b0);
            assert(o % 2 == b0);
            assert(lhs[0] == rhs[0]);
        },
        Mode::Mode3 => {
            let k = octet as int / 4;
            assert(octet as int - octet as int % 4 == 4 * k);
            assert(o == 4 * k + 2 * b0 + b1);
            assert(o / 2 == 2 * k + b0);
            assert((o / 2) % 2 == b0);
            assert(o % 2 == b1);
            assert(lhs[0] == rhs[0]);
            assert(lhs[1] == rhs[1]);
        },
    }
    assert(lhs =~= rhs);
}

/// Insertion keeps every bit above the auxiliary field: the two higher
/// sub-band bits and the audio bits of the lower sub-band code-word.
pub proof fn lemma_insert_keeps_audio_bits(m: Mode, queue: Seq<bool>, pad: bool, octet: u8)
    ensures
        inserted_octet(m, queue, pad, octet) / place(discard_spec(m)) == octet as int / place(
            discard_spec(m),
        ),
        inserted_octet(m, queue, pad, octet) / 4 == octet as int / 4,
{
    let b0 = bit_value(aux_bit(queue, pad, 0));
    let b1 = bit_value(aux_bit(queue, pad, 1));
    let o = inserted_octet(m, queue, pad, octet);
    match m {
        Mode::Mode1 => {
            assert(octet as int % 1 == 0);
            assert(o == octet);
        },
        Mode::Mode2 => {
            let k = octet as int / 2;
            assert(octet as int - octet as int % 2 == 2 * k);
            assert(o == 2 * k + b0);
        },
        Mode::Mode3 => {
            let k = octet as int / 4;
            assert(octet as int - octet as int % 4 == 4 * k);
            assert(o == 4 * k + 2 * b0 + b1);
        },
    }
}

/// Mode 1 carries no auxiliary data: insertion returns every octet
/// unchanged and takes nothing from the queue.
pub proof fn lemma_mode1_pass_through(queue: Seq<bool>, pad: bool, octets: Seq<u8>)
    ensures
        insert_stream(Mode::Mode1, queue, pad, octets) == octets,
        after_taking(queue, discard_spec(Mode::Mode1) * octets.len()) == queue,
        stream_bits(Mode::Mode1, octets) == Seq::<bool>::empty(),
{
    assert(insert_stream(Mode::Mode1, queue, pad, octets) =~= octets);
    assert(after_taking(queue, 0) =~= queue);
    assert(stream_bits(Mode::Mode1, octets) =~= Seq::<bool>::empty());
}

/// Over a stream of octets in one mode, the extraction device reads
/// back exactly the auxiliary bits the insertion device sent: the
/// queued bits in order, then padding, `n` per octet.
pub proof fn lemma_stream_round_trip(m: Mode, queue: Seq<bool>, pad: bool, octets: Seq<u8>)
    ensures
        stream_bits(m, insert_stream(m, queue, pad, octets)) == Seq::new(
            (discard_spec(m) * octets.len()) as nat,
            |j: int| aux_bit(queue, pad, j),
        ),
{
    let n = discard_spec(m);
    let wire = insert_stream(m, queue, pad, octets);
    let lhs = stream_bits(m, wire);
    let rhs = Seq::new((n * octets.len()) as nat, |j: int| aux_bit(queue, pad, j));
    assert forall|j: int| 0 <= j < lhs.len() implies lhs[j] == rhs[j] by {
        let i = j / n;
        let p = j % n;
        assert(0 <= i < octets.len() && 0 <= p < n && j == n * i + p) by {
            match m {
                Mode::Mode1 => {
                    assert(n * octets.len() == 0) by (nonlinear_arith)
                        requires
                            n == 0,
                    ;
                },
                Mode::Mode2 => {
                    assert(n * octets.len() == octets.len()) by (nonlinear_arith)
                        requires
                            n == 1,
                    ;
                    assert(j / 1 == j && j % 1 == 0);
                },
                Mode::Mode3 => {
                    assert(n * octets.len() == 2 * octets.len()) by (nonlinear_arith)
                        requires
                            n == 2,
                    ;
                    assert(i == j / 2 && p == j % 2);
                },
            }
        }
        assert(n * i >= 0) by (nonlinear_arith)
            requires
                n >= 0,
                i >= 0,
        ;
        lemma_aux_bit_after(queue, pad, n * i);
        lemma_octet_round_trip(m, after_taking(queue, n * i), pad, octets[i]);
        assert(octet_bits(m, wire[i])[p] == aux_bit(after_taking(queue, n * i), pad, p));
    }
    assert(lhs =~= rhs);
}

} // verus!

verus! {

/// Inserting a stream is inserting its octets one after another: the
/// stream of `a + b` is the stream of `a` followed by the stream of `b`
/// inserted from the queue that `a` left. With `b` a single octet this
/// is one [`DataInserter::insert`] after the rest.
pub proof fn lemma_insert_stream_concat(m: Mode, q: Seq<bool>, pad: bool, a: Seq<u8>, b: Seq<u8>)
    requires
        0 <= discard_spec(m),
    ensures
        insert_stream(m, q, pad, a + b) == insert_stream(m, q, pad, a) + insert_stream(
            m,
            after_taking(q, discard_spec(m) * a.len()),
            pad,
            b,
        ),
{
    let n = discard_spec(m);
    let lhs = insert_stream(m, q, pad, a + b);
    let rhs = insert_stream(m, q, pad, a) + insert_stream(m, after_taking(q, n * a.len()), pad, b);
    assert forall|i: int| 0 <= i < lhs.len() implies lhs[i] == rhs[i] by {
        if i >= a.len() {
            let j = i - a.len();
            assert(n * a.len() >= 0 && n * j >= 0) by (nonlinear_arith)
                requires
                    n >= 0,
                    j >= 0,
            ;
            assert(n * i == n * a.len() + n * j) by (nonlinear_arith)
                requires
                    j == i - a.len(),
            ;
            lemma_take_more(q, n * a.len(), n * j);
        }
    }
    assert(lhs =~= rhs);
}

} // verus!
