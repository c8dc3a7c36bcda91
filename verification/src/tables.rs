//! Numeric tables of the SB-ADPCM coder.
//!
//! Each table carries the values of the corresponding normative table
//! of Recommendation G.722: the QMF coefficients (Table 11), the
//! quantizer decision levels and output magnitudes (Table 14), the
//! log-to-linear table ILB (Table 15), and the code-word conversion
//! tables for the 6-, 5-, 4- and 2-bit code-words (Tables 16 to 21).
//! Tables addressed 1-based in the Recommendation carry a leading
//! sentinel at index 0.

use vstd::prelude::*;

verus! {

/// QMF filter taps `H0 .. H23` (Table 11), scaled by 2^13.
pub const QMF_TAPS: [i32; 24] = [
    3, -11, -11, 53, 12, -156, 32, 362, -210, -805, 951, 3876, 3876, 951, -805, -210, 362, 32,
    -156, 12, 53, -11, -11, 3,
];

/// Lower sub-band 6-bit quantizer decision levels `Q6(0 .. 29)`
/// (Table 14); the decision level `LDU(k)` uses `Q6(k)`.
pub const Q6: [i32; 32] = [
    0, 35, 72, 110, 150, 190, 233, 276, 323, 370, 422, 473, 530, 587, 650, 714, 786, 858, 940,
    1023, 1121, 1219, 1339, 1458, 1612, 1765, 1980, 2195, 2557, 2919, 0, 0,
];

/// Lower sub-band 6-bit inverse-quantizer output magnitudes
/// `QQ6(1 .. 30)` (Table 14). Index 0 is a sentinel.
pub const QQ6: [i32; 31] = [
    0, 17, 54, 91, 130, 170, 211, 254, 300, 347, 396, 447, 501, 558, 618, 682, 750, 822, 899, 982,
    1072, 1170, 1279, 1399, 1535, 1689, 1873, 2088, 2376, 2738, 3101,
];

/// Lower sub-band 5-bit inverse-quantizer output magnitudes
/// `QQ5(1 .. 15)` (Table 14). Index 0 is a sentinel.
pub const QQ5: [i32; 16] = [
    0, 35, 110, 190, 276, 370, 473, 587, 714, 858, 1023, 1219, 1458, 1765, 2195, 2919,
];

/// Lower sub-band 4-bit inverse-quantizer output magnitudes
/// `QQ4(1 .. 7)` (Table 14). Index 0 is a sentinel.
pub const QQ4: [i32; 8] = [0, 0, 150, 323, 530, 786, 1121, 1612];

/// Lower sub-band logarithmic scale-factor multipliers `WL`
/// (Table 14), indexed by the 4-bit magnitude `IL4`.
pub const WL: [i32; 8] = [-60, -30, 58, 172, 334, 538, 1198, 3042];

/// Higher sub-band 2-bit quantizer decision level `Q2(1)` (Table 14).
pub const Q2_LEVEL_1: i32 = 564;

/// Higher sub-band 2-bit inverse-quantizer output magnitudes
/// `QQ2(1 .. 2)` (Table 14). Index 0 is a sentinel.
pub const QQ2: [i32; 3] = [0, 202, 926];

/// Higher sub-band logarithmic scale-factor multipliers `WH(1 .. 2)`
/// (Table 14). Index 0 is a sentinel.
pub const WH: [i32; 3] = [0, -214, 798];

/// Log-to-linear conversion table `ILB(0 .. 31)` (Table 15).
pub const ILB: [i32; 32] = [
    2048, 2093, 2139, 2186, 2233, 2282, 2332, 2383, 2435, 2489, 2543, 2599, 2656, 2714, 2774, 2834,
    2896, 2960, 3025, 3091, 3158, 3228, 3298, 3371, 3444, 3520, 3597, 3676, 3756, 3838, 3922, 4008,
];

/// Sign `SIL` per 4-bit code-word (Table 17).
pub const SIL_FROM_IL4: [i32; 16] = [0, -1, -1, -1, -1, -1, -1, -1, 0, 0, 0, 0, 0, 0, 0, 0];

/// Magnitude `IL4` per 4-bit code-word (Table 17).
pub const IL4_FROM_IL4: [u8; 16] = [0, 7, 6, 5, 4, 3, 2, 1, 7, 6, 5, 4, 3, 2, 1, 0];

/// Sign `SIL` per 6-bit code-word (Table 18). The four substituted
/// code-words `000000 .. 000011` and the two code-words `111110`,
/// `111111` are negative.
pub const SIL_FROM_IL6: [i32; 64] = [
    -1, -1, -1, -1, -1, -1, -1, -1, -1, -1, -1, -1, -1, -1, -1, -1, -1, -1, -1, -1, -1, -1, -1,
    -1, -1, -1, -1, -1, -1, -1, -1, -1, 0, 0, 0, 0, 0, 0, 0, 0, 0, 0, 0, 0, 0, 0, 0, 0, 0, 0, 0, 0,
    0, 0, 0, 0, 0, 0, 0, 0, 0, 0, -1, -1,
];

/// Magnitude `IL6` per 6-bit code-word (Table 18).
pub const IL6_FROM_IL6: [u8; 64] = [
    1, 1, 1, 1, 30, 29, 28, 27, 26, 25, 24, 23, 22, 21, 20, 19, 18, 17, 16, 15, 14, 13, 12, 11, 10,
    9, 8, 7, 6, 5, 4, 3, 30, 29, 28, 27, 26, 25, 24, 23, 22, 21, 20, 19, 18, 17, 16, 15, 14, 13,
    12, 11, 10, 9, 8, 7, 6, 5, 4, 3, 2, 1, 2, 1,
];

/// Sign `SIL` per 5-bit code-word (Table 19). The two substituted
/// code-words `00000`, `00001` and the code-word `11111` are negative.
pub const SIL_FROM_IL5: [i32; 32] = [
    -1, -1, -1, -1, -1, -1, -1, -1, -1, -1, -1, -1, -1, -1, -1, -1, 0, 0, 0, 0, 0, 0, 0, 0, 0, 0,
    0, 0, 0, 0, 0, -1,
];

/// Magnitude `IL5` per 5-bit code-word (Table 19).
pub const IL5_FROM_IL5: [u8; 32] = [
    1, 1, 15, 14, 13, 12, 11, 10, 9, 8, 7, 6, 5, 4, 3, 2, 15, 14, 13, 12, 11, 10, 9, 8, 7, 6, 5, 4,
    3, 2, 1, 1,
];

/// Builds [`SIL_FROM_IL6`]: code-words with the top bit clear are
/// negative, and so are `111110` and `111111` (the two smallest negative
/// intervals).
pub fn build_sil6() -> (a: [i32; 64])
    ensures
        a == SIL_FROM_IL6,
{
    let mut a: [i32; 64] = [0; 64];
    let mut i: usize = 0;
    while i < 64
        invariant
            i <= 64,
            forall|j: int| 0 <= j < i ==> #[trigger] a[j] == SIL_FROM_IL6[j],
        decreases 64 - i,
    {
        a[i] = if (i >> 5) & 1 == 0 || i >= 0b111110 {
            -1
        } else {
            0
        };
        proof {
            assert((i >> 5usize) & 1usize == 0 <==> i < 32) by (bit_vector)
                requires
                    i < 64,
            ;
        }
        i = i + 1;
    }
    proof {
        assert(a =~= SIL_FROM_IL6);
    }
    a
}

/// Builds [`IL6_FROM_IL6`] row by row in the order of Table 18.
pub fn build_il6() -> (a: [u8; 64])
    ensures
        a == IL6_FROM_IL6,
{
    let mut a: [u8; 64] = [0; 64];
    // Negative half: the four substituted code-words, then 000100 ..
    // 011111 for intervals 30 down to 3, and 111110 / 111111 for 2 / 1.
    a[0b000000] = 1;
    a[0b000001] = 1;
    a[0b000010] = 1;
    a[0b000011] = 1;
    a[0b000100] = 30;
    a[0b000101] = 29;
    a[0b000110] = 28;
    a[0b000111] = 27;
    a[0b001000] = 26;
    a[0b001001] = 25;
    a[0b001010] = 24;
    a[0b001011] = 23;
    a[0b001100] = 22;
    a[0b001101] = 21;
    a[0b001110] = 20;
    a[0b001111] = 19;
    a[0b010000] = 18;
    a[0b010001] = 17;
    a[0b010010] = 16;
    a[0b010011] = 15;
    a[0b010100] = 14;
    a[0b010101] = 13;
    a[0b010110] = 12;
    a[0b010111] = 11;
    a[0b011000] = 10;
    a[0b011001] = 9;
    a[0b011010] = 8;
    a[0b011011] = 7;
    a[0b011100] = 6;
    a[0b011101] = 5;
    a[0b011110] = 4;
    a[0b011111] = 3;
    a[0b111110] = 2;
    a[0b111111] = 1;
    // Positive half: 111101 down to 100000 for intervals 1 .. 30.
    a[0b111101] = 1;
    a[0b111100] = 2;
    a[0b111011] = 3;
    a[0b111010] = 4;
    a[0b111001] = 5;
    a[0b111000] = 6;
    a[0b110111] = 7;
    a[0b110110] = 8;
    a[0b110101] = 9;
    a[0b110100] = 10;
    a[0b110011] = 11;
    a[0b110010] = 12;
    a[0b110001] = 13;
    a[0b110000] = 14;
    a[0b101111] = 15;
    a[0b101110] = 16;
    a[0b101101] = 17;
    a[0b101100] = 18;
    a[0b101011] = 19;
    a[0b101010] = 20;
    a[0b101001] = 21;
    a[0b101000] = 22;
    a[0b100111] = 23;
    a[0b100110] = 24;
    a[0b100101] = 25;
    a[0b100100] = 26;
    a[0b100011] = 27;
    a[0b100010] = 28;
    a[0b100001] = 29;
    a[0b100000] = 30;
    proof {
        assert(a =~= IL6_FROM_IL6);
    }
    a
}

/// Builds [`SIL_FROM_IL5`]: code-words with the top bit clear are
/// negative, and so is `11111`.
pub fn build_sil5() -> (a: [i32; 32])
    ensures
        a == SIL_FROM_IL5,
{
    let mut a: [i32; 32] = [0; 32];
    let mut i: usize = 0;
    while i < 32
        invariant
            i <= 32,
            forall|j: int| 0 <= j < i ==> #[trigger] a[j] == SIL_FROM_IL5[j],
        decreases 32 - i,
    {
        a[i] = if (i >> 4) & 1 == 0 || i == 0b11111 {
            -1
        } else {
            0
        };
        proof {
            assert((i >> 4usize) & 1usize == 0 <==> i < 16) by (bit_vector)
                requires
                    i < 32,
            ;
        }
        i = i + 1;
    }
    proof {
        assert(a =~= SIL_FROM_IL5);
    }
    a
}

/// Builds [`IL5_FROM_IL5`] row by row in the order of Table 19.
pub fn build_il5() -> (a: [u8; 32])
    ensures
        a == IL5_FROM_IL5,
{
    let mut a: [u8; 32] = [0; 32];
    // Negative half: the two substituted code-words, then 00010 .. 01111
    // for intervals 15 down to 2.
    a[0b00000] = 1;
    a[0b00001] = 1;
    a[0b00010] = 15;
    a[0b00011] = 14;
    a[0b00100] = 13;
    a[0b00101] = 12;
    a[0b00110] = 11;
    a[0b00111] = 10;
    a[0b01000] = 9;
    a[0b01001] = 8;
    a[0b01010] = 7;
    a[0b01011] = 6;
    a[0b01100] = 5;
    a[0b01101] = 4;
    a[0b01110] = 3;
    a[0b01111] = 2;
    // Positive half: 11111 / 11110 for interval 1, then 11101 down to
    // 10000 for intervals 2 .. 15.
    a[0b11111] = 1;
    a[0b11110] = 1;
    a[0b11101] = 2;
    a[0b11100] = 3;
    a[0b11011] = 4;
    a[0b11010] = 5;
    a[0b11001] = 6;
    a[0b11000] = 7;
    a[0b10111] = 8;
    a[0b10110] = 9;
    a[0b10101] = 10;
    a[0b10100] = 11;
    a[0b10011] = 12;
    a[0b10010] = 13;
    a[0b10001] = 14;
    a[0b10000] = 15;
    proof {
        assert(a =~= IL5_FROM_IL5);
    }
    a
}

/// Sign `SIH` per 2-bit higher sub-band code-word (Table 21).
pub const SIH_FROM_IH: [i32; 4] = [-1, -1, 0, 0];

/// Magnitude `IH2` per 2-bit higher sub-band code-word (Table 21).
pub const IH2_FROM_IH: [u8; 4] = [2, 1, 2, 1];

/// Positive lower sub-band code-word `ILP` for each quantizer interval
/// `m_L = 1 .. 30` (Table 16). Index 0 and 31 are sentinels.
pub const ILP6_FROM_ML: [u8; 32] = [
    0, 61, 60, 59, 58, 57, 56, 55, 54, 53, 52, 51, 50, 49, 48, 47, 46, 45, 44, 43, 42, 41, 40, 39,
    38, 37, 36, 35, 34, 33, 32, 0,
];

/// Negative lower sub-band code-word `ILN` for each quantizer interval
/// `m_L = 1 .. 30` (Table 16). Index 0 and 31 are sentinels.
pub const ILN6_FROM_ML: [u8; 32] = [
    0, 63, 62, 31, 30, 29, 28, 27, 26, 25, 24, 23, 22, 21, 20, 19, 18, 17, 16, 15, 14, 13, 12, 11,
    10, 9, 8, 7, 6, 5, 4, 0,
];

/// Positive higher sub-band code-word `IHP` for `m_H = 1, 2`
/// (Table 20). Index 0 is a sentinel.
pub const IHP2_FROM_MH: [u8; 3] = [0, 3, 2];

/// Negative higher sub-band code-word `IHN` for `m_H = 1, 2`
/// (Table 20). Index 0 is a sentinel.
pub const IHN2_FROM_MH: [u8; 3] = [0, 1, 0];

/// Ranges of the table entries that the coder's arithmetic relies on.
pub proof fn lemma_table_ranges()
    ensures
        forall|i: int| 0 <= i < 31 ==> 0 <= #[trigger] QQ6[i] <= 3101,
        forall|i: int| 0 <= i < 16 ==> 0 <= #[trigger] QQ5[i] <= 2919,
        forall|i: int| 0 <= i < 8 ==> 0 <= #[trigger] QQ4[i] <= 1612,
        forall|i: int| 0 <= i < 3 ==> 0 <= #[trigger] QQ2[i] <= 926,
        forall|i: int| 0 <= i < 32 ==> 0 <= #[trigger] Q6[i] <= 2919,
        forall|i: int| 0 <= i < 32 ==> 2048 <= #[trigger] ILB[i] <= 4008,
        forall|i: int| 0 <= i < 8 ==> -60 <= #[trigger] WL[i] <= 3042,
        forall|i: int| 0 <= i < 3 ==> -214 <= #[trigger] WH[i] <= 798,
        forall|i: int| 0 <= i < 24 ==> -805 <= #[trigger] QMF_TAPS[i] <= 3876,
        forall|i: int| 0 <= i < 16 ==> #[trigger] IL4_FROM_IL4[i] <= 7,
        forall|i: int| 0 <= i < 16 ==> -1 <= #[trigger] SIL_FROM_IL4[i] <= 0,
        forall|i: int| 0 <= i < 64 ==> 1 <= #[trigger] IL6_FROM_IL6[i] <= 30,
        forall|i: int| 0 <= i < 64 ==> -1 <= #[trigger] SIL_FROM_IL6[i] <= 0,
        forall|i: int| 0 <= i < 32 ==> 1 <= #[trigger] IL5_FROM_IL5[i] <= 15,
        forall|i: int| 0 <= i < 32 ==> -1 <= #[trigger] SIL_FROM_IL5[i] <= 0,
        forall|i: int| 0 <= i < 4 ==> 1 <= #[trigger] IH2_FROM_IH[i] <= 2,
        forall|i: int| 0 <= i < 4 ==> -1 <= #[trigger] SIH_FROM_IH[i] <= 0,
        forall|m: int| 1 <= m <= 30 ==> 4 <= #[trigger] ILP6_FROM_ML[m] <= 63,
        forall|m: int| 1 <= m <= 30 ==> 4 <= #[trigger] ILN6_FROM_ML[m] <= 63,
        forall|m: int| 1 <= m <= 2 ==> #[trigger] IHP2_FROM_MH[m] <= 3,
        forall|m: int| 1 <= m <= 2 ==> #[trigger] IHN2_FROM_MH[m] <= 3,
{
}

/// The code-word tables of Table 16 and Table 18 are mutually inverse:
/// the code-word chosen for interval `m_L` with a given sign decodes
/// back to `m_L` with that sign.
pub proof fn lemma_lower_codeword_tables_invert()
    ensures
        forall|m: int|
            1 <= m <= 30 ==> IL6_FROM_IL6[#[trigger] ILP6_FROM_ML[m] as int] == m
                && SIL_FROM_IL6[ILP6_FROM_ML[m] as int] == 0,
        forall|m: int|
            1 <= m <= 30 ==> IL6_FROM_IL6[#[trigger] ILN6_FROM_ML[m] as int] == m
                && SIL_FROM_IL6[ILN6_FROM_ML[m] as int] == -1,
{
}

/// The higher sub-band code-word tables of Table 20 and Table 21 are
/// mutually inverse.
pub proof fn lemma_higher_codeword_tables_invert()
    ensures
        forall|m: int|
            1 <= m <= 2 ==> IH2_FROM_IH[#[trigger] IHP2_FROM_MH[m] as int] == m
                && SIH_FROM_IH[IHP2_FROM_MH[m] as int] == 0,
        forall|m: int|
            1 <= m <= 2 ==> IH2_FROM_IH[#[trigger] IHN2_FROM_MH[m] as int] == m
                && SIH_FROM_IH[IHN2_FROM_MH[m] as int] == -1,
{
}

} // verus!
