//! Conversion between 8-bit sRGB and a fixed-point OKLab working space.
//!
//! A working color holds lightness and the two opponent axes in units of
//! `1 / WORK_UNIT`. sRGB bytes are linearised through the standard transfer
//! curve (tabulated with `LINEAR_UNIT` steps per unit of light), mixed into
//! cone responses, passed through an exact integer cube root and mixed again,
//! with the published OKLab matrices scaled to integers. The way back inverts
//! the matrices, cubes, and picks the nearest 8-bit level.

use vstd::prelude::*;
use vstd::arithmetic::div_mod::lemma_fundamental_div_mod_converse;
use crate::lemma_mul_le;

verus! {

/// A working-space unit: a coordinate of `WORK_UNIT` is 1.0.
pub const WORK_UNIT: i64 = 65536;

/// Steps of the linear-light scale: `LINEAR_UNIT` is full intensity.
pub const LINEAR_UNIT: i64 = 1048576;

/// A color in the working space (OKLab, fixed point with unit `WORK_UNIT`).
#[derive(Debug, Clone, Copy, PartialEq, Eq, Structural)]
pub struct OklabColor {
    /// Lightness.
    pub l: i32,
    /// Green-red axis.
    pub a: i32,
    /// Blue-yellow axis.
    pub b: i32,
}

/// Linear light of sRGB byte `c`, in units of `1 / LINEAR_UNIT`.
pub open spec fn linear_of(c: u8) -> int {
    match c {
        0u8 => 0,
        1u8 => 318,
        2u8 => 637,
        3u8 => 955,
        4u8 => 1273,
        5u8 => 1591,
        6u8 => 1910,
        7u8 => 2228,
        8u8 => 2546,
        9u8 => 2864,
        10u8 => 3183,
        11u8 => 3509,
        12u8 => 3855,
        13u8 => 4220,
        14u8 => 4605,
        15u8 => 5009,
        16u8 => 5433,
        17u8 => 5878,
        18u8 => 6343,
        19u8 => 6828,
        20u8 => 7335,
        21u8 => 7863,
        22u8 => 8413,
        23u8 => 8984,
        24u8 => 9578,
        25u8 => 10193,
        26u8 => 10832,
        27u8 => 11492,
        28u8 => 12176,
        29u8 => 12883,
        30u8 => 13614,
        31u8 => 14368,
        32u8 => 15145,
        33u8 => 15947,
        34u8 => 16773,
        35u8 => 17624,
        36u8 => 18499,
        37u8 => 19399,
        38u8 => 20324,
        39u8 => 21274,
        40u8 => 22250,
        41u8 => 23251,
        42u8 => 24278,
        43u8 => 25331,
        44u8 => 26410,
        45u8 => 27516,
        46u8 => 28648,
        47u8 => 29807,
        48u8 => 30993,
        49u8 => 32205,
        50u8 => 33445,
        51u8 => 34713,
        52u8 => 36008,
        53u8 => 37331,
        54u8 => 38681,
        55u8 => 40060,
        56u8 => 41467,
        57u8 => 42903,
        58u8 => 44367,
        59u8 => 45860,
        60u8 => 47381,
        61u8 => 48932,
        62u8 => 50512,
        63u8 => 52121,
        64u8 => 53760,
        65u8 => 55428,
        66u8 => 57127,
        67u8 => 58855,
        68u8 => 60613,
        69u8 => 62402,
        70u8 => 64221,
        71u8 => 66071,
        72u8 => 67951,
        73u8 => 69862,
        74u8 => 71805,
        75u8 => 73778,
        76u8 => 75783,
        77u8 => 77819,
        78u8 => 79886,
        79u8 => 81985,
        80u8 => 84117,
        81u8 => 86280,
        82u8 => 88475,
        83u8 => 90702,
        84u8 => 92962,
        85u8 => 95254,
        86u8 => 97579,
        87u8 => 99937,
        88u8 => 102328,
        89u8 => 104751,
        90u8 => 107208,
        91u8 => 109698,
        92u8 => 112222,
        93u8 => 114779,
        94u8 => 117370,
        95u8 => 119994,
        96u8 => 122653,
        97u8 => 125345,
        98u8 => 128072,
        99u8 => 130833,
        100u8 => 133628,
        101u8 => 136458,
        102u8 => 139323,
        103u8 => 142222,
        104u8 => 145156,
        105u8 => 148125,
        106u8 => 151130,
        107u8 => 154169,
        108u8 => 157244,
        109u8 => 160355,
        110u8 => 163501,
        111u8 => 166683,
        112u8 => 169900,
        113u8 => 173154,
        114u8 => 176443,
        115u8 => 179769,
        116u8 => 183131,
        117u8 => 186530,
        118u8 => 189964,
        119u8 => 193436,
        120u8 => 196944,
        121u8 => 200489,
        122u8 => 204072,
        123u8 => 207691,
        124u8 => 211347,
        125u8 => 215041,
        126u8 => 218772,
        127u8 => 222540,
        128u8 => 226346,
        129u8 => 230190,
        130u8 => 234071,
        131u8 => 237991,
        132u8 => 241948,
        133u8 => 245944,
        134u8 => 249978,
        135u8 => 254050,
        136u8 => 258161,
        137u8 => 262310,
        138u8 => 266498,
        139u8 => 270724,
        140u8 => 274990,
        141u8 => 279294,
        142u8 => 283637,
        143u8 => 288020,
        144u8 => 292442,
        145u8 => 296903,
        146u8 => 301404,
        147u8 => 305944,
        148u8 => 310523,
        149u8 => 315143,
        150u8 => 319802,
        151u8 => 324502,
        152u8 => 329241,
        153u8 => 334021,
        154u8 => 338840,
        155u8 => 343700,
        156u8 => 348601,
        157u8 => 353542,
        158u8 => 358523,
        159u8 => 363546,
        160u8 => 368609,
        161u8 => 373713,
        162u8 => 378858,
        163u8 => 384044,
        164u8 => 389271,
        165u8 => 394539,
        166u8 => 399849,
        167u8 => 405201,
        168u8 => 410594,
        169u8 => 416028,
        170u8 => 421504,
        171u8 => 427022,
        172u8 => 432582,
        173u8 => 438184,
        174u8 => 443828,
        175u8 => 449515,
        176u8 => 455243,
        177u8 => 461014,
        178u8 => 466827,
        179u8 => 472683,
        180u8 => 478582,
        181u8 => 484523,
        182u8 => 490507,
        183u8 => 496534,
        184u8 => 502604,
        185u8 => 508717,
        186u8 => 514873,
        187u8 => 521072,
        188u8 => 527315,
        189u8 => 533601,
        190u8 => 539930,
        191u8 => 546303,
        192u8 => 552720,
        193u8 => 559181,
        194u8 => 565685,
        195u8 => 572234,
        196u8 => 578826,
        197u8 => 585462,
        198u8 => 592143,
        199u8 => 598868,
        200u8 => 605637,
        201u8 => 612451,
        202u8 => 619309,
        203u8 => 626211,
        204u8 => 633159,
        205u8 => 640151,
        206u8 => 647188,
        207u8 => 654270,
        208u8 => 661397,
        209u8 => 668569,
        210u8 => 675786,
        211u8 => 683048,
        212u8 => 690356,
        213u8 => 697709,
        214u8 => 705108,
        215u8 => 712552,
        216u8 => 720042,
        217u8 => 727577,
        218u8 => 735159,
        219u8 => 742786,
        220u8 => 750459,
        221u8 => 758178,
        222u8 => 765944,
        223u8 => 773755,
        224u8 => 781613,
        225u8 => 789517,
        226u8 => 797468,
        227u8 => 805465,
        228u8 => 813509,
        229u8 => 821599,
        230u8 => 829736,
        231u8 => 837920,
        232u8 => 846151,
        233u8 => 854429,
        234u8 => 862753,
        235u8 => 871125,
        236u8 => 879545,
        237u8 => 888011,
        238u8 => 896525,
        239u8 => 905086,
        240u8 => 913695,
        241u8 => 922351,
        242u8 => 931055,
        243u8 => 939807,
        244u8 => 948606,
        245u8 => 957453,
        246u8 => 966349,
        247u8 => 975292,
        248u8 => 984283,
        249u8 => 993323,
        250u8 => 1002411,
        251u8 => 1011547,
        252u8 => 1020731,
        253u8 => 1029964,
        254u8 => 1039246,
        _ => 1048576,
    }
}

/// Linear light halfway between sRGB levels `c` and `c + 1` (past the last
/// level: a value above any reachable light).
pub open spec fn midpoint_of(c: u8) -> int {
    match c {
        0u8 => 159,
        1u8 => 477,
        2u8 => 796,
        3u8 => 1114,
        4u8 => 1432,
        5u8 => 1750,
        6u8 => 2069,
        7u8 => 2387,
        8u8 => 2705,
        9u8 => 3024,
        10u8 => 3343,
        11u8 => 3680,
        12u8 => 4035,
        13u8 => 4410,
        14u8 => 4804,
        15u8 => 5219,
        16u8 => 5653,
        17u8 => 6108,
        18u8 => 6583,
        19u8 => 7079,
        20u8 => 7597,
        21u8 => 8135,
        22u8 => 8696,
        23u8 => 9278,
        24u8 => 9883,
        25u8 => 10510,
        26u8 => 11159,
        27u8 => 11832,
        28u8 => 12527,
        29u8 => 13246,
        30u8 => 13988,
        31u8 => 14754,
        32u8 => 15543,
        33u8 => 16357,
        34u8 => 17196,
        35u8 => 18058,
        36u8 => 18946,
        37u8 => 19858,
        38u8 => 20796,
        39u8 => 21759,
        40u8 => 22747,
        41u8 => 23761,
        42u8 => 24801,
        43u8 => 25867,
        44u8 => 26960,
        45u8 => 28079,
        46u8 => 29224,
        47u8 => 30396,
        48u8 => 31596,
        49u8 => 32822,
        50u8 => 34076,
        51u8 => 35357,
        52u8 => 36666,
        53u8 => 38003,
        54u8 => 39367,
        55u8 => 40760,
        56u8 => 42181,
        57u8 => 43631,
        58u8 => 45110,
        59u8 => 46617,
        60u8 => 48153,
        61u8 => 49718,
        62u8 => 51313,
        63u8 => 52937,
        64u8 => 54590,
        65u8 => 56274,
        66u8 => 57987,
        67u8 => 59730,
        68u8 => 61504,
        69u8 => 63308,
        70u8 => 65142,
        71u8 => 67007,
        72u8 => 68903,
        73u8 => 70830,
        74u8 => 72787,
        75u8 => 74776,
        76u8 => 76797,
        77u8 => 78848,
        78u8 => 80932,
        79u8 => 83047,
        80u8 => 85194,
        81u8 => 87373,
        82u8 => 89585,
        83u8 => 91828,
        84u8 => 94104,
        85u8 => 96413,
        86u8 => 98754,
        87u8 => 101128,
        88u8 => 103535,
        89u8 => 105976,
        90u8 => 108449,
        91u8 => 110956,
        92u8 => 113496,
        93u8 => 116070,
        94u8 => 118678,
        95u8 => 121319,
        96u8 => 123995,
        97u8 => 126704,
        98u8 => 129448,
        99u8 => 132226,
        100u8 => 135039,
        101u8 => 137886,
        102u8 => 140768,
        103u8 => 143685,
        104u8 => 146636,
        105u8 => 149623,
        106u8 => 152645,
        107u8 => 155702,
        108u8 => 158795,
        109u8 => 161923,
        110u8 => 165087,
        111u8 => 168287,
        112u8 => 171522,
        113u8 => 174794,
        114u8 => 178102,
        115u8 => 181446,
        116u8 => 184826,
        117u8 => 188242,
        118u8 => 191696,
        119u8 => 195186,
        120u8 => 198712,
        121u8 => 202276,
        122u8 => 205877,
        123u8 => 209514,
        124u8 => 213189,
        125u8 => 216901,
        126u8 => 220651,
        127u8 => 224438,
        128u8 => 228263,
        129u8 => 232126,
        130u8 => 236026,
        131u8 => 239965,
        132u8 => 243942,
        133u8 => 247956,
        134u8 => 252009,
        135u8 => 256101,
        136u8 => 260231,
        137u8 => 264399,
        138u8 => 268606,
        139u8 => 272852,
        140u8 => 277137,
        141u8 => 281461,
        142u8 => 285824,
        143u8 => 290226,
        144u8 => 294667,
        145u8 => 299148,
        146u8 => 303669,
        147u8 => 308229,
        148u8 => 312828,
        149u8 => 317468,
        150u8 => 322147,
        151u8 => 326866,
        152u8 => 331626,
        153u8 => 336425,
        154u8 => 341265,
        155u8 => 346145,
        156u8 => 351066,
        157u8 => 356027,
        158u8 => 361029,
        159u8 => 366072,
        160u8 => 371156,
        161u8 => 376280,
        162u8 => 381446,
        163u8 => 386652,
        164u8 => 391900,
        165u8 => 397189,
        166u8 => 402520,
        167u8 => 407892,
        168u8 => 413306,
        169u8 => 418761,
        170u8 => 424258,
        171u8 => 429797,
        172u8 => 435378,
        173u8 => 441001,
        174u8 => 446666,
        175u8 => 452374,
        176u8 => 458123,
        177u8 => 463915,
        178u8 => 469750,
        179u8 => 475627,
        180u8 => 481547,
        181u8 => 487510,
        182u8 => 493515,
        183u8 => 499563,
        184u8 => 505655,
        185u8 => 511789,
        186u8 => 517967,
        187u8 => 524188,
        188u8 => 530452,
        189u8 => 536760,
        190u8 => 543111,
        191u8 => 549506,
        192u8 => 555945,
        193u8 => 562428,
        194u8 => 568954,
        195u8 => 575524,
        196u8 => 582139,
        197u8 => 588797,
        198u8 => 595500,
        199u8 => 602247,
        200u8 => 609038,
        201u8 => 615874,
        202u8 => 622755,
        203u8 => 629680,
        204u8 => 636649,
        205u8 => 643664,
        206u8 => 650723,
        207u8 => 657828,
        208u8 => 664977,
        209u8 => 672172,
        210u8 => 679411,
        211u8 => 686697,
        212u8 => 694027,
        213u8 => 701403,
        214u8 => 708824,
        215u8 => 716291,
        216u8 => 723804,
        217u8 => 731362,
        218u8 => 738966,
        219u8 => 746617,
        220u8 => 754313,
        221u8 => 762055,
        222u8 => 769844,
        223u8 => 777678,
        224u8 => 785559,
        225u8 => 793487,
        226u8 => 801460,
        227u8 => 809481,
        228u8 => 817548,
        229u8 => 825662,
        230u8 => 833822,
        231u8 => 842029,
        232u8 => 850284,
        233u8 => 858585,
        234u8 => 866933,
        235u8 => 875329,
        236u8 => 883772,
        237u8 => 892262,
        238u8 => 900799,
        239u8 => 909384,
        240u8 => 918017,
        241u8 => 926697,
        242u8 => 935425,
        243u8 => 944200,
        244u8 => 953024,
        245u8 => 961895,
        246u8 => 970814,
        247u8 => 979782,
        248u8 => 988797,
        249u8 => 997861,
        250u8 => 1006973,
        251u8 => 1016133,
        252u8 => 1025342,
        253u8 => 1034599,
        254u8 => 1043905,
        _ => 0x7FFF_FFFF,
    }
}

fn linear_value(c: u8) -> (r: i64)
    ensures
        r == linear_of(c),
{
    match c {
        0u8 => 0,
        1u8 => 318,
        2u8 => 637,
        3u8 => 955,
        4u8 => 1273,
        5u8 => 1591,
        6u8 => 1910,
        7u8 => 2228,
        8u8 => 2546,
        9u8 => 2864,
        10u8 => 3183,
        11u8 => 3509,
        12u8 => 3855,
        13u8 => 4220,
        14u8 => 4605,
        15u8 => 5009,
        16u8 => 5433,
        17u8 => 5878,
        18u8 => 6343,
        19u8 => 6828,
        20u8 => 7335,
        21u8 => 7863,
        22u8 => 8413,
        23u8 => 8984,
        24u8 => 9578,
        25u8 => 10193,
        26u8 => 10832,
        27u8 => 11492,
        28u8 => 12176,
        29u8 => 12883,
        30u8 => 13614,
        31u8 => 14368,
        32u8 => 15145,
        33u8 => 15947,
        34u8 => 16773,
        35u8 => 17624,
        36u8 => 18499,
        37u8 => 19399,
        38u8 => 20324,
        39u8 => 21274,
        40u8 => 22250,
        41u8 => 23251,
        42u8 => 24278,
        43u8 => 25331,
        44u8 => 26410,
        45u8 => 27516,
        46u8 => 28648,
        47u8 => 29807,
        48u8 => 30993,
        49u8 => 32205,
        50u8 => 33445,
        51u8 => 34713,
        52u8 => 36008,
        53u8 => 37331,
        54u8 => 38681,
        55u8 => 40060,
        56u8 => 41467,
        57u8 => 42903,
        58u8 => 44367,
        59u8 => 45860,
        60u8 => 47381,
        61u8 => 48932,
        62u8 => 50512,
        63u8 => 52121,
        64u8 => 53760,
        65u8 => 55428,
        66u8 => 57127,
        67u8 => 58855,
        68u8 => 60613,
        69u8 => 62402,
        70u8 => 64221,
        71u8 => 66071,
        72u8 => 67951,
        73u8 => 69862,
        74u8 => 71805,
        75u8 => 73778,
        76u8 => 75783,
        77u8 => 77819,
        78u8 => 79886,
        79u8 => 81985,
        80u8 => 84117,
        81u8 => 86280,
        82u8 => 88475,
        83u8 => 90702,
        84u8 => 92962,
        85u8 => 95254,
        86u8 => 97579,
        87u8 => 99937,
        88u8 => 102328,
        89u8 => 104751,
        90u8 => 107208,
        91u8 => 109698,
        92u8 => 112222,
        93u8 => 114779,
        94u8 => 117370,
        95u8 => 119994,
        96u8 => 122653,
        97u8 => 125345,
        98u8 => 128072,
        99u8 => 130833,
        100u8 => 133628,
        101u8 => 136458,
        102u8 => 139323,
        103u8 => 142222,
        104u8 => 145156,
        105u8 => 148125,
        106u8 => 151130,
        107u8 => 154169,
        108u8 => 157244,
        109u8 => 160355,
        110u8 => 163501,
        111u8 => 166683,
        112u8 => 169900,
        113u8 => 173154,
        114u8 => 176443,
        115u8 => 179769,
        116u8 => 183131,
        117u8 => 186530,
        118u8 => 189964,
        119u8 => 193436,
        120u8 => 196944,
        121u8 => 200489,
        122u8 => 204072,
        123u8 => 207691,
        124u8 => 211347,
        125u8 => 215041,
        126u8 => 218772,
        127u8 => 222540,
        128u8 => 226346,
        129u8 => 230190,
        130u8 => 234071,
        131u8 => 237991,
        132u8 => 241948,
        133u8 => 245944,
        134u8 => 249978,
        135u8 => 254050,
        136u8 => 258161,
        137u8 => 262310,
        138u8 => 266498,
        139u8 => 270724,
        140u8 => 274990,
        141u8 => 279294,
        142u8 => 283637,
        143u8 => 288020,
        144u8 => 292442,
        145u8 => 296903,
        146u8 => 301404,
        147u8 => 305944,
        148u8 => 310523,
        149u8 => 315143,
        150u8 => 319802,
        151u8 => 324502,
        152u8 => 329241,
        153u8 => 334021,
        154u8 => 338840,
        155u8 => 343700,
        156u8 => 348601,
        157u8 => 353542,
        158u8 => 358523,
        159u8 => 363546,
        160u8 => 368609,
        161u8 => 373713,
        162u8 => 378858,
        163u8 => 384044,
        164u8 => 389271,
        165u8 => 394539,
        166u8 => 399849,
        167u8 => 405201,
        168u8 => 410594,
        169u8 => 416028,
        170u8 => 421504,
        171u8 => 427022,
        172u8 => 432582,
        173u8 => 438184,
        174u8 => 443828,
        175u8 => 449515,
        176u8 => 455243,
        177u8 => 461014,
        178u8 => 466827,
        179u8 => 472683,
        180u8 => 478582,
        181u8 => 484523,
        182u8 => 490507,
        183u8 => 496534,
        184u8 => 502604,
        185u8 => 508717,
        186u8 => 514873,
        187u8 => 521072,
        188u8 => 527315,
        189u8 => 533601,
        190u8 => 539930,
        191u8 => 546303,
        192u8 => 552720,
        193u8 => 559181,
        194u8 => 565685,
        195u8 => 572234,
        196u8 => 578826,
        197u8 => 585462,
        198u8 => 592143,
        199u8 => 598868,
        200u8 => 605637,
        201u8 => 612451,
        202u8 => 619309,
        203u8 => 626211,
        204u8 => 633159,
        205u8 => 640151,
        206u8 => 647188,
        207u8 => 654270,
        208u8 => 661397,
        209u8 => 668569,
        210u8 => 675786,
        211u8 => 683048,
        212u8 => 690356,
        213u8 => 697709,
        214u8 => 705108,
        215u8 => 712552,
        216u8 => 720042,
        217u8 => 727577,
        218u8 => 735159,
        219u8 => 742786,
        220u8 => 750459,
        221u8 => 758178,
        222u8 => 765944,
        223u8 => 773755,
        224u8 => 781613,
        225u8 => 789517,
        226u8 => 797468,
        227u8 => 805465,
        228u8 => 813509,
        229u8 => 821599,
        230u8 => 829736,
        231u8 => 837920,
        232u8 => 846151,
        233u8 => 854429,
        234u8 => 862753,
        235u8 => 871125,
        236u8 => 879545,
        237u8 => 888011,
        238u8 => 896525,
        239u8 => 905086,
        240u8 => 913695,
        241u8 => 922351,
        242u8 => 931055,
        243u8 => 939807,
        244u8 => 948606,
        245u8 => 957453,
        246u8 => 966349,
        247u8 => 975292,
        248u8 => 984283,
        249u8 => 993323,
        250u8 => 1002411,
        251u8 => 1011547,
        252u8 => 1020731,
        253u8 => 1029964,
        254u8 => 1039246,
        _ => 1048576,
    }
}

fn midpoint_value(c: u8) -> (r: i64)
    ensures
        r == midpoint_of(c),
{
    match c {
        0u8 => 159,
        1u8 => 477,
        2u8 => 796,
        3u8 => 1114,
        4u8 => 1432,
        5u8 => 1750,
        6u8 => 2069,
        7u8 => 2387,
        8u8 => 2705,
        9u8 => 3024,
        10u8 => 3343,
        11u8 => 3680,
        12u8 => 4035,
        13u8 => 4410,
        14u8 => 4804,
        15u8 => 5219,
        16u8 => 5653,
        17u8 => 6108,
        18u8 => 6583,
        19u8 => 7079,
        20u8 => 7597,
        21u8 => 8135,
        22u8 => 8696,
        23u8 => 9278,
        24u8 => 9883,
        25u8 => 10510,
        26u8 => 11159,
        27u8 => 11832,
        28u8 => 12527,
        29u8 => 13246,
        30u8 => 13988,
        31u8 => 14754,
        32u8 => 15543,
        33u8 => 16357,
        34u8 => 17196,
        35u8 => 18058,
        36u8 => 18946,
        37u8 => 19858,
        38u8 => 20796,
        39u8 => 21759,
        40u8 => 22747,
        41u8 => 23761,
        42u8 => 24801,
        43u8 => 25867,
        44u8 => 26960,
        45u8 => 28079,
        46u8 => 29224,
        47u8 => 30396,
        48u8 => 31596,
        49u8 => 32822,
        50u8 => 34076,
        51u8 => 35357,
        52u8 => 36666,
        53u8 => 38003,
        54u8 => 39367,
        55u8 => 40760,
        56u8 => 42181,
        57u8 => 43631,
        58u8 => 45110,
        59u8 => 46617,
        60u8 => 48153,
        61u8 => 49718,
        62u8 => 51313,
        63u8 => 52937,
        64u8 => 54590,
        65u8 => 56274,
        66u8 => 57987,
        67u8 => 59730,
        68u8 => 61504,
        69u8 => 63308,
        70u8 => 65142,
        71u8 => 67007,
        72u8 => 68903,
        73u8 => 70830,
        74u8 => 72787,
        75u8 => 74776,
        76u8 => 76797,
        77u8 => 78848,
        78u8 => 80932,
        79u8 => 83047,
        80u8 => 85194,
        81u8 => 87373,
        82u8 => 89585,
        83u8 => 91828,
        84u8 => 94104,
        85u8 => 96413,
        86u8 => 98754,
        87u8 => 101128,
        88u8 => 103535,
        89u8 => 105976,
        90u8 => 108449,
        91u8 => 110956,
        92u8 => 113496,
        93u8 => 116070,
        94u8 => 118678,
        95u8 => 121319,
        96u8 => 123995,
        97u8 => 126704,
        98u8 => 129448,
        99u8 => 132226,
        100u8 => 135039,
        101u8 => 137886,
        102u8 => 140768,
        103u8 => 143685,
        104u8 => 146636,
        105u8 => 149623,
        106u8 => 152645,
        107u8 => 155702,
        108u8 => 158795,
        109u8 => 161923,
        110u8 => 165087,
        111u8 => 168287,
        112u8 => 171522,
        113u8 => 174794,
        114u8 => 178102,
        115u8 => 181446,
        116u8 => 184826,
        117u8 => 188242,
        118u8 => 191696,
        119u8 => 195186,
        120u8 => 198712,
        121u8 => 202276,
        122u8 => 205877,
        123u8 => 209514,
        124u8 => 213189,
        125u8 => 216901,
        126u8 => 220651,
        127u8 => 224438,
        128u8 => 228263,
        129u8 => 232126,
        130u8 => 236026,
        131u8 => 239965,
        132u8 => 243942,
        133u8 => 247956,
        134u8 => 252009,
        135u8 => 256101,
        136u8 => 260231,
        137u8 => 264399,
        138u8 => 268606,
        139u8 => 272852,
        140u8 => 277137,
        141u8 => 281461,
        142u8 => 285824,
        143u8 => 290226,
        144u8 => 294667,
        145u8 => 299148,
        146u8 => 303669,
        147u8 => 308229,
        148u8 => 312828,
        149u8 => 317468,
        150u8 => 322147,
        151u8 => 326866,
        152u8 => 331626,
        153u8 => 336425,
        154u8 => 341265,
        155u8 => 346145,
        156u8 => 351066,
        157u8 => 356027,
        158u8 => 361029,
        159u8 => 366072,
        160u8 => 371156,
        161u8 => 376280,
        162u8 => 381446,
        163u8 => 386652,
        164u8 => 391900,
        165u8 => 397189,
        166u8 => 402520,
        167u8 => 407892,
        168u8 => 413306,
        169u8 => 418761,
        170u8 => 424258,
        171u8 => 429797,
        172u8 => 435378,
        173u8 => 441001,
        174u8 => 446666,
        175u8 => 452374,
        176u8 => 458123,
        177u8 => 463915,
        178u8 => 469750,
        179u8 => 475627,
        180u8 => 481547,
        181u8 => 487510,
        182u8 => 493515,
        183u8 => 499563,
        184u8 => 505655,
        185u8 => 511789,
        186u8 => 517967,
        187u8 => 524188,
        188u8 => 530452,
        189u8 => 536760,
        190u8 => 543111,
        191u8 => 549506,
        192u8 => 555945,
        193u8 => 562428,
        194u8 => 568954,
        195u8 => 575524,
        196u8 => 582139,
        197u8 => 588797,
        198u8 => 595500,
        199u8 => 602247,
        200u8 => 609038,
        201u8 => 615874,
        202u8 => 622755,
        203u8 => 629680,
        204u8 => 636649,
        205u8 => 643664,
        206u8 => 650723,
        207u8 => 657828,
        208u8 => 664977,
        209u8 => 672172,
        210u8 => 679411,
        211u8 => 686697,
        212u8 => 694027,
        213u8 => 701403,
        214u8 => 708824,
        215u8 => 716291,
        216u8 => 723804,
        217u8 => 731362,
        218u8 => 738966,
        219u8 => 746617,
        220u8 => 754313,
        221u8 => 762055,
        222u8 => 769844,
        223u8 => 777678,
        224u8 => 785559,
        225u8 => 793487,
        226u8 => 801460,
        227u8 => 809481,
        228u8 => 817548,
        229u8 => 825662,
        230u8 => 833822,
        231u8 => 842029,
        232u8 => 850284,
        233u8 => 858585,
        234u8 => 866933,
        235u8 => 875329,
        236u8 => 883772,
        237u8 => 892262,
        238u8 => 900799,
        239u8 => 909384,
        240u8 => 918017,
        241u8 => 926697,
        242u8 => 935425,
        243u8 => 944200,
        244u8 => 953024,
        245u8 => 961895,
        246u8 => 970814,
        247u8 => 979782,
        248u8 => 988797,
        249u8 => 997861,
        250u8 => 1006973,
        251u8 => 1016133,
        252u8 => 1025342,
        253u8 => 1034599,
        254u8 => 1043905,
        _ => 0x7FFF_FFFF,
    }
}

/// `r` is the integer cube root of `n`, rounded down.
pub open spec fn is_cbrt(n: int, r: int) -> bool {
    0 <= r && r * r * r <= n < (r + 1) * (r + 1) * (r + 1)
}

/// The integer cube root of `n`, rounded down.
pub open spec fn cbrt_floor(n: int) -> int {
    choose|r: int| is_cbrt(n, r)
}

proof fn lemma_cube_monotone(a: int, b: int)
    requires
        0 <= a <= b,
    ensures
        a * a * a <= b * b * b,
{
    assert(a * a <= b * b) by (nonlinear_arith) requires 0 <= a <= b;
    assert(a * a * a <= b * b * b) by (nonlinear_arith) requires 0 <= a <= b, a * a <= b * b;
}

proof fn lemma_cbrt_unique(n: int, r: int)
    requires
        is_cbrt(n, r),
    ensures
        cbrt_floor(n) == r,
{
    let q = cbrt_floor(n);
    assert(is_cbrt(n, q));
    if q < r {
        lemma_cube_monotone(q + 1, r);
    } else if r < q {
        lemma_cube_monotone(r + 1, q);
    }
}

/// Integer cube root by bisection.
fn icbrt(n: u64) -> (r: u64)
    requires
        n < 0x8_0000_0000_0000,
    ensures
        is_cbrt(n as int, r as int),
        r as int == cbrt_floor(n as int),
        r < 0x2_0000,
{
    let mut lo: u64 = 0;
    let mut hi: u64 = 0x2_0000;
    assert(0x2_0000 * 0x2_0000 * 0x2_0000 == 0x8_0000_0000_0000);
    while hi - lo > 1
        invariant
            lo < hi <= 0x2_0000,
            lo * lo * lo <= n,
            n < hi * hi * hi,
        decreases hi - lo,
    {
        let mid = lo + (hi - lo) / 2;
        proof {
            lemma_mul_le(mid as int, mid as int, 0x2_0000, 0x2_0000);
            lemma_mul_le(mid as int * mid as int, mid as int, 0x4_0000_0000, 0x2_0000);
        }
        if mid * mid * mid <= n {
            lo = mid;
        } else {
            hi = mid;
        }
    }
    proof {
        assert(hi == lo + 1);
        lemma_cbrt_unique(n as int, lo as int);
    }
    lo
}

/// `x / d` rounded down, for any sign of `x`.
pub(crate) fn floor_div(x: i128, d: i128) -> (r: i128)
    requires
        0 < d <= 0x1_0000_0000_0000_0000,
        -0x1000_0000_0000_0000_0000_0000_0000_0000 <= x <= 0x1000_0000_0000_0000_0000_0000_0000_0000,
    ensures
        r == x / d,
        d * r <= x < d * r + d,
{
    if x >= 0 {
        proof {
            vstd::arithmetic::div_mod::lemma_fundamental_div_mod(x as int, d as int);
            vstd::arithmetic::div_mod::lemma_mod_pos_bound(x as int, d as int);
        }
        x / d
    } else {
        let q = (d - 1 - x) / d;
        proof {
            let nx = d - 1 - x as int;
            let di = d as int;
            assert(nx >= 0);
            vstd::arithmetic::div_mod::lemma_fundamental_div_mod(nx, di);
            vstd::arithmetic::div_mod::lemma_mod_pos_bound(nx, di);
            assert(q as int == nx / di);
            assert(di * (q as int) == nx - nx % di);
            let rem = x as int + di * (q as int);
            assert(x as int == (-(q as int)) * di + rem) by (nonlinear_arith)
                requires rem == x as int + di * (q as int);
            lemma_fundamental_div_mod_converse(x as int, di, -(q as int), rem);
        }
        -q
    }
}

/// Cone responses of linear light `(r, g, b)`, in units of `2^48`.
pub open spec fn lms_l(r: int, g: int, b: int) -> int {
    110654858 * r + 143970669 * g + 13809929 * b
}

pub open spec fn lms_m(r: int, g: int, b: int) -> int {
    56882412 * r + 182723893 * g + 28829151 * b
}

pub open spec fn lms_s(r: int, g: int, b: int) -> int {
    23703512 * r + 75623325 * g + 169108620 * b
}

/// The working color of the sRGB bytes `(r, g, b)`.
pub open spec fn working_of(r: u8, g: u8, b: u8) -> OklabColor {
    let (lr, lg, lb) = (linear_of(r), linear_of(g), linear_of(b));
    let l = cbrt_floor(lms_l(lr, lg, lb));
    let m = cbrt_floor(lms_m(lr, lg, lb));
    let s = cbrt_floor(lms_s(lr, lg, lb));
    OklabColor {
        l: ((13792 * l + 52011 * m - 267 * s) / 65536) as i32,
        a: ((129630 * l - 159160 * m + 29530 * s) / 65536) as i32,
        b: ((1698 * l + 51300 * m - 52997 * s) / 65536) as i32,
    }
}

/// The sRGB level whose interval of linear light holds `lin`: the number of
/// level midpoints at or below it.
pub open spec fn level_count(lin: int, n: int) -> int
    decreases n,
{
    if n <= 0 {
        0
    } else {
        level_count(lin, n - 1) + if midpoint_of((n - 1) as u8) <= lin { 1int } else { 0int }
    }
}

/// Linear light of one sRGB channel of working color `c`, from the cubes of
/// its cone responses `(cl, cm, cs)` (units of `2^48`), in units of `1 / LINEAR_UNIT`.
pub open spec fn channel_linear(k0: int, k1: int, k2: int, cl: int, cm: int, cs: int) -> int {
    (k0 * cl + k1 * cm + k2 * cs) / 0x100_0000_0000
}

/// The nonlinear cone responses of a working color, in units of `1 / WORK_UNIT`.
pub open spec fn cone_l(c: OklabColor) -> int {
    (65536 * c.l + 25974 * c.a + 14143 * c.b) / 65536
}

pub open spec fn cone_m(c: OklabColor) -> int {
    (65536 * c.l + (-6918) * c.a + (-4185) * c.b) / 65536
}

pub open spec fn cone_s(c: OklabColor) -> int {
    (65536 * c.l + (-5864) * c.a + (-84639) * c.b) / 65536
}

/// The sRGB bytes `[r, g, b]` of working color `c`, each channel clamped to
/// the byte range and rounded to the nearest level.
pub open spec fn srgb_of(c: OklabColor) -> Seq<u8> {
    let (l, m, s) = (cone_l(c), cone_m(c), cone_s(c));
    let (cl, cm, cs) = (l * l * l, m * m * m, s * s * s);
    seq![
        level_count(channel_linear(16698, -13548, 946, cl, cm, cs), 255) as u8,
        level_count(channel_linear(-5196, 10690, -1398, cl, cm, cs), 255) as u8,
        level_count(channel_linear(-17, -2881, 6994, cl, cm, cs), 255) as u8,
    ]
}

proof fn lemma_level_count_bound(lin: int, n: int)
    requires
        0 <= n,
    ensures
        0 <= level_count(lin, n) <= n,
    decreases n,
{
    if n > 0 {
        lemma_level_count_bound(lin, n - 1);
    }
}

/// The sRGB level of a linear-light value.
fn level_of(lin: i128) -> (r: u8)
    ensures
        r as int == level_count(lin as int, 255),
{
    let mut count: u8 = 0;
    let mut k: u8 = 0;
    while k < 255
        invariant
            k <= 255,
            count as int == level_count(lin as int, k as int),
            count <= k,
        decreases 255 - k,
    {
        proof { lemma_level_count_bound(lin as int, k as int); }
        if (midpoint_value(k) as i128) <= lin {
            count = count + 1;
        }
        k = k + 1;
    }
    count
}

/// The working color of one sRGB pixel.
pub fn srgb_to_oklab(r: u8, g: u8, b: u8) -> (c: OklabColor)
    ensures
        c == working_of(r, g, b),
{
    let lr = linear_value(r);
    let lg = linear_value(g);
    let lb = linear_value(b);
    assert(0 <= lr <= 1048576 && 0 <= lg <= 1048576 && 0 <= lb <= 1048576) by {
        reveal_linear_bound(r);
        reveal_linear_bound(g);
        reveal_linear_bound(b);
    }
    let l = icbrt((110654858 * lr + 143970669 * lg + 13809929 * lb) as u64) as i64;
    let m = icbrt((56882412 * lr + 182723893 * lg + 28829151 * lb) as u64) as i64;
    let s = icbrt((23703512 * lr + 75623325 * lg + 169108620 * lb) as u64) as i64;
    OklabColor {
        l: floor_div((13792 * l + 52011 * m - 267 * s) as i128, 65536) as i32,
        a: floor_div((129630 * l - 159160 * m + 29530 * s) as i128, 65536) as i32,
        b: floor_div((1698 * l + 51300 * m - 52997 * s) as i128, 65536) as i32,
    }
}

proof fn reveal_linear_bound(c: u8)
    ensures
        0 <= linear_of(c) <= 1048576,
{
}

fn cone_value(l: i32, a: i32, b: i32, ka: i128, kb: i128) -> (r: i128)
    requires
        -0x2_0000 <= ka <= 0x2_0000, -0x2_0000 <= kb <= 0x2_0000,
    ensures
        r == (65536 * l + ka * a + kb * b) / 65536,
        -0x4_0000_0000 <= r <= 0x4_0000_0000,
{
    proof {
        assert(-0x2_0000 * 0x8000_0000 <= ka * a <= 0x2_0000 * 0x8000_0000) by (nonlinear_arith)
            requires -0x2_0000 <= ka <= 0x2_0000, -0x8000_0000 <= a < 0x8000_0000;
        assert(-0x2_0000 * 0x8000_0000 <= kb * b <= 0x2_0000 * 0x8000_0000) by (nonlinear_arith)
            requires -0x2_0000 <= kb <= 0x2_0000, -0x8000_0000 <= b < 0x8000_0000;
    }
    floor_div(65536 * (l as i128) + ka * (a as i128) + kb * (b as i128), 65536)
}

fn cube(v: i128) -> (r: i128)
    requires
        -0x4_0000_0000 <= v <= 0x4_0000_0000,
    ensures
        r == v * v * v,
        -0x40_0000_0000_0000_0000_0000_0000 <= r <= 0x40_0000_0000_0000_0000_0000_0000,
{
    proof {
        lemma_cube_bound(v as int);
        assert(-0x10_0000_0000_0000_0000 <= v * v <= 0x10_0000_0000_0000_0000) by (nonlinear_arith)
            requires -0x4_0000_0000 <= v <= 0x4_0000_0000;
    }
    v * v * v
}

fn channel_value(k0: i128, k1: i128, k2: i128, cl: i128, cm: i128, cs: i128) -> (r: u8)
    requires
        -0x8000 <= k0 <= 0x8000, -0x8000 <= k1 <= 0x8000, -0x8000 <= k2 <= 0x8000,
        -0x40_0000_0000_0000_0000_0000_0000 <= cl <= 0x40_0000_0000_0000_0000_0000_0000,
        -0x40_0000_0000_0000_0000_0000_0000 <= cm <= 0x40_0000_0000_0000_0000_0000_0000,
        -0x40_0000_0000_0000_0000_0000_0000 <= cs <= 0x40_0000_0000_0000_0000_0000_0000,
    ensures
        r as int == level_count(channel_linear(k0 as int, k1 as int, k2 as int, cl as int, cm as int, cs as int), 255),
{
    proof {
        assert(-0x20_0000_0000_0000_0000_0000_0000_0000 <= k0 * cl <= 0x20_0000_0000_0000_0000_0000_0000_0000)
            by (nonlinear_arith)
            requires -0x8000 <= k0 <= 0x8000, -0x40_0000_0000_0000_0000_0000_0000 <= cl <= 0x40_0000_0000_0000_0000_0000_0000;
        assert(-0x20_0000_0000_0000_0000_0000_0000_0000 <= k1 * cm <= 0x20_0000_0000_0000_0000_0000_0000_0000)
            by (nonlinear_arith)
            requires -0x8000 <= k1 <= 0x8000, -0x40_0000_0000_0000_0000_0000_0000 <= cm <= 0x40_0000_0000_0000_0000_0000_0000;
        assert(-0x20_0000_0000_0000_0000_0000_0000_0000 <= k2 * cs <= 0x20_0000_0000_0000_0000_0000_0000_0000)
            by (nonlinear_arith)
            requires -0x8000 <= k2 <= 0x8000, -0x40_0000_0000_0000_0000_0000_0000 <= cs <= 0x40_0000_0000_0000_0000_0000_0000;
    }
    level_of(floor_div(k0 * cl + k1 * cm + k2 * cs, 0x100_0000_0000))
}

/// The sRGB bytes `[r, g, b]` of a working color.
pub fn oklab_to_srgb(c: OklabColor) -> (r: [u8; 3])
    ensures
        r@ == srgb_of(c),
{
    let cl = cube(cone_value(c.l, c.a, c.b, 25974, 14143));
    let cm = cube(cone_value(c.l, c.a, c.b, -6918, -4185));
    let cs = cube(cone_value(c.l, c.a, c.b, -5864, -84639));
    let rr = channel_value(16698, -13548, 946, cl, cm, cs);
    let gg = channel_value(-5196, 10690, -1398, cl, cm, cs);
    let bb = channel_value(-17, -2881, 6994, cl, cm, cs);
    let out = [rr, gg, bb];
    assert(out@ =~= srgb_of(c));
    out
}

proof fn lemma_cube_bound(v: int)
    requires
        -0x4_0000_0000 <= v <= 0x4_0000_0000,
    ensures
        -0x40_0000_0000_0000_0000_0000_0000 <= v * v * v <= 0x40_0000_0000_0000_0000_0000_0000,
{
    assert(-0x40_0000_0000_0000_0000_0000_0000 <= v * v * v <= 0x40_0000_0000_0000_0000_0000_0000)
        by (nonlinear_arith)
        requires -0x4_0000_0000 <= v <= 0x4_0000_0000;
}

/// The working color of pixel `i` of an RGBA buffer.
pub open spec fn pixel_working(rgba: Seq<u8>, i: int) -> OklabColor {
    working_of(rgba[4 * i], rgba[4 * i + 1], rgba[4 * i + 2])
}

/// Converts every whole RGBA pixel of the buffer to the working space
/// (alpha is ignored; a trailing partial pixel is dropped).
pub fn srgb_to_oklab_batch(rgba: &[u8]) -> (r: Vec<OklabColor>)
    ensures
        r@.len() == rgba@.len() / 4,
        forall|i: int| 0 <= i < r@.len() ==> #[trigger] r@[i] == pixel_working(rgba@, i),
{
    let len = rgba.len();
    let n = len / 4;
    proof {
        vstd::arithmetic::div_mod::lemma_fundamental_div_mod(rgba@.len() as int, 4);
        vstd::arithmetic::div_mod::lemma_mod_pos_bound(rgba@.len() as int, 4);
    }
    let mut out: Vec<OklabColor> = Vec::new();
    let mut i: usize = 0;
    while i < n
        invariant
            n == rgba@.len() / 4,
            len == rgba@.len(),
            4 * n <= len,
            i <= n,
            out@.len() == i,
            forall|j: int| 0 <= j < i ==> #[trigger] out@[j] == pixel_working(rgba@, j),
        decreases n - i,
    {
        let base: usize = 4 * i;
        out.push(srgb_to_oklab(rgba[base], rgba[base + 1], rgba[base + 2]));
        i = i + 1;
    }
    out
}

/// Converts working colors to opaque RGBA pixels.
pub fn oklab_to_srgb_batch(oklab_colors: &[OklabColor]) -> (r: Vec<u8>)
    requires
        oklab_colors@.len() * 4 <= usize::MAX,
    ensures
        r@.len() == 4 * oklab_colors@.len(),
        forall|i: int| 0 <= i < oklab_colors@.len() ==> r@.subrange(4 * i, 4 * i + 4)
            == #[trigger] srgb_of(oklab_colors@[i]).push(255u8),
{
    let mut out: Vec<u8> = Vec::new();
    let mut i: usize = 0;
    while i < oklab_colors.len()
        invariant
            i <= oklab_colors@.len(),
            out@.len() == 4 * i,
            forall|j: int| 0 <= j < i ==> out@.subrange(4 * j, 4 * j + 4)
                == #[trigger] srgb_of(oklab_colors@[j]).push(255u8),
        decreases oklab_colors@.len() - i,
    {
        let rgb = oklab_to_srgb(oklab_colors[i]);
        let ghost before = out@;
        out.push(rgb[0]);
        out.push(rgb[1]);
        out.push(rgb[2]);
        out.push(255);
        proof {
            assert forall|j: int| 0 <= j < i + 1 implies out@.subrange(4 * j, 4 * j + 4)
                == #[trigger] srgb_of(oklab_colors@[j]).push(255u8) by {
                if j < i {
                    assert(out@.subrange(4 * j, 4 * j + 4) =~= before.subrange(4 * j, 4 * j + 4));
                } else {
                    assert(out@.subrange(4 * j, 4 * j + 4) =~= srgb_of(oklab_colors@[j]).push(255u8));
                }
            }
        }
        i = i + 1;
    }
    out
}

/// Converts a working-space palette to opaque RGBA entries.
pub fn oklab_palette_to_srgb(palette: &[OklabColor]) -> (r: Vec<[u8; 4]>)
    ensures
        r@.len() == palette@.len(),
        forall|i: int| 0 <= i < palette@.len() ==> (#[trigger] r@[i])@ == srgb_of(palette@[i]).push(255u8),
{
    let mut out: Vec<[u8; 4]> = Vec::new();
    let mut i: usize = 0;
    while i < palette.len()
        invariant
            i <= palette@.len(),
            out@.len() == i,
            forall|j: int| 0 <= j < i ==> (#[trigger] out@[j])@ == srgb_of(palette@[j]).push(255u8),
        decreases palette@.len() - i,
    {
        let rgb = oklab_to_srgb(palette[i]);
        let entry = [rgb[0], rgb[1], rgb[2], 255u8];
        assert(entry@ =~= srgb_of(palette@[i as int]).push(255u8));
        out.push(entry);
        i = i + 1;
    }
    out
}

} // verus!
