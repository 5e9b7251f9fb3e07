//! How bright a colour is, in whole numbers.
//!
//! A channel of a colour from 0 to 255 stands for a share of light that grows faster than the
//! channel: up to 10 it is the channel over 255 and over 12.92, and above that the power 2.4 of
//! (channel / 255 + 0.055) / 1.055. Shares are held in billionths, rounded down.

use vstd::prelude::*;

verus! {

/// The fifth power.
pub open spec fn fifth(x: int) -> int {
    x * x * x * x * x
}

/// The twelfth power.
pub open spec fn twelfth(x: int) -> int {
    (x * x * x) * (x * x * x) * (x * x * x) * (x * x * x)
}

/// `v` is the share of light of channel `c` in billionths, rounded down. Above the linear part the
/// share is the fifth root of the twelfth power of (40 `c` + 561) / 10761.
pub open spec fn is_share(c: int, v: int) -> bool {
    if c <= 10 {
        v * 16473 <= 5_000_000_000 * c < (v + 1) * 16473
    } else {
        0 <= v && fifth(v) * twelfth(10761) <= fifth(1_000_000_000) * twelfth(40 * c + 561) < fifth(v + 1)
            * twelfth(10761)
    }
}

fn share_from_0(c: u8) -> (r: u32)
    requires
        0 <= c < 16,
    ensures
        is_share(c as int, r as int),
        r <= 1_000_000_000,
{
    match c {
        0 => { assert(is_share(0, 0)) by (nonlinear_arith); 0 },
        1 => { assert(is_share(1, 303526)) by (nonlinear_arith); 303526 },
        2 => { assert(is_share(2, 607053)) by (nonlinear_arith); 607053 },
        3 => { assert(is_share(3, 910580)) by (nonlinear_arith); 910580 },
        4 => { assert(is_share(4, 1214107)) by (nonlinear_arith); 1214107 },
        5 => { assert(is_share(5, 1517634)) by (nonlinear_arith); 1517634 },
        6 => { assert(is_share(6, 1821161)) by (nonlinear_arith); 1821161 },
        7 => { assert(is_share(7, 2124688)) by (nonlinear_arith); 2124688 },
        8 => { assert(is_share(8, 2428215)) by (nonlinear_arith); 2428215 },
        9 => { assert(is_share(9, 2731742)) by (nonlinear_arith); 2731742 },
        10 => { assert(is_share(10, 3035269)) by (nonlinear_arith); 3035269 },
        11 => { assert(is_share(11, 3346535)) by (nonlinear_arith); 3346535 },
        12 => { assert(is_share(12, 3676507)) by (nonlinear_arith); 3676507 },
        13 => { assert(is_share(13, 4024717)) by (nonlinear_arith); 4024717 },
        14 => { assert(is_share(14, 4391442)) by (nonlinear_arith); 4391442 },
        _ => { assert(is_share(15, 4776953)) by (nonlinear_arith); 4776953 },
    }
}

fn share_from_16(c: u8) -> (r: u32)
    requires
        16 <= c < 32,
    ensures
        is_share(c as int, r as int),
        r <= 1_000_000_000,
{
    match c {
        16 => { assert(is_share(16, 5181516)) by (nonlinear_arith); 5181516 },
        17 => { assert(is_share(17, 5605391)) by (nonlinear_arith); 5605391 },
        18 => { assert(is_share(18, 6048833)) by (nonlinear_arith); 6048833 },
        19 => { assert(is_share(19, 6512090)) by (nonlinear_arith); 6512090 },
        20 => { assert(is_share(20, 6995410)) by (nonlinear_arith); 6995410 },
        21 => { assert(is_share(21, 7499032)) by (nonlinear_arith); 7499032 },
        22 => { assert(is_share(22, 8023192)) by (nonlinear_arith); 8023192 },
        23 => { assert(is_share(23, 8568125)) by (nonlinear_arith); 8568125 },
        24 => { assert(is_share(24, 9134058)) by (nonlinear_arith); 9134058 },
        25 => { assert(is_share(25, 9721217)) by (nonlinear_arith); 9721217 },
        26 => { assert(is_share(26, 10329823)) by (nonlinear_arith); 10329823 },
        27 => { assert(is_share(27, 10960094)) by (nonlinear_arith); 10960094 },
        28 => { assert(is_share(28, 11612245)) by (nonlinear_arith); 11612245 },
        29 => { assert(is_share(29, 12286488)) by (nonlinear_arith); 12286488 },
        30 => { assert(is_share(30, 12983032)) by (nonlinear_arith); 12983032 },
        _ => { assert(is_share(31, 13702083)) by (nonlinear_arith); 13702083 },
    }
}

fn share_from_32(c: u8) -> (r: u32)
    requires
        32 <= c < 48,
    ensures
        is_share(c as int, r as int),
        r <= 1_000_000_000,
{
    match c {
        32 => { assert(is_share(32, 14443843)) by (nonlinear_arith); 14443843 },
        33 => { assert(is_share(33, 15208514)) by (nonlinear_arith); 15208514 },
        34 => { assert(is_share(34, 15996293)) by (nonlinear_arith); 15996293 },
        35 => { assert(is_share(35, 16807375)) by (nonlinear_arith); 16807375 },
        36 => { assert(is_share(36, 17641954)) by (nonlinear_arith); 17641954 },
        37 => { assert(is_share(37, 18500220)) by (nonlinear_arith); 18500220 },
        38 => { assert(is_share(38, 19382360)) by (nonlinear_arith); 19382360 },
        39 => { assert(is_share(39, 20288563)) by (nonlinear_arith); 20288563 },
        40 => { assert(is_share(40, 21219010)) by (nonlinear_arith); 21219010 },
        41 => { assert(is_share(41, 22173884)) by (nonlinear_arith); 22173884 },
        42 => { assert(is_share(42, 23153366)) by (nonlinear_arith); 23153366 },
        43 => { assert(is_share(43, 24157632)) by (nonlinear_arith); 24157632 },
        44 => { assert(is_share(44, 25186859)) by (nonlinear_arith); 25186859 },
        45 => { assert(is_share(45, 26241221)) by (nonlinear_arith); 26241221 },
        46 => { assert(is_share(46, 27320891)) by (nonlinear_arith); 27320891 },
        _ => { assert(is_share(47, 28426039)) by (nonlinear_arith); 28426039 },
    }
}

fn share_from_48(c: u8) -> (r: u32)
    requires
        48 <= c < 64,
    ensures
        is_share(c as int, r as int),
        r <= 1_000_000_000,
{
    match c {
        48 => { assert(is_share(48, 29556834)) by (nonlinear_arith); 29556834 },
        49 => { assert(is_share(49, 30713443)) by (nonlinear_arith); 30713443 },
        50 => { assert(is_share(50, 31896033)) by (nonlinear_arith); 31896033 },
        51 => { assert(is_share(51, 33104766)) by (nonlinear_arith); 33104766 },
        52 => { assert(is_share(52, 34339806)) by (nonlinear_arith); 34339806 },
        53 => { assert(is_share(53, 35601314)) by (nonlinear_arith); 35601314 },
        54 => { assert(is_share(54, 36889450)) by (nonlinear_arith); 36889450 },
        55 => { assert(is_share(55, 38204371)) by (nonlinear_arith); 38204371 },
        56 => { assert(is_share(56, 39546235)) by (nonlinear_arith); 39546235 },
        57 => { assert(is_share(57, 40915196)) by (nonlinear_arith); 40915196 },
        58 => { assert(is_share(58, 42311410)) by (nonlinear_arith); 42311410 },
        59 => { assert(is_share(59, 43735029)) by (nonlinear_arith); 43735029 },
        60 => { assert(is_share(60, 45186204)) by (nonlinear_arith); 45186204 },
        61 => { assert(is_share(61, 46665086)) by (nonlinear_arith); 46665086 },
        62 => { assert(is_share(62, 48171824)) by (nonlinear_arith); 48171824 },
        _ => { assert(is_share(63, 49706565)) by (nonlinear_arith); 49706565 },
    }
}

fn share_from_64(c: u8) -> (r: u32)
    requires
        64 <= c < 80,
    ensures
        is_share(c as int, r as int),
        r <= 1_000_000_000,
{
    match c {
        64 => { assert(is_share(64, 51269458)) by (nonlinear_arith); 51269458 },
        65 => { assert(is_share(65, 52860647)) by (nonlinear_arith); 52860647 },
        66 => { assert(is_share(66, 54480276)) by (nonlinear_arith); 54480276 },
        67 => { assert(is_share(67, 56128490)) by (nonlinear_arith); 56128490 },
        68 => { assert(is_share(68, 57805430)) by (nonlinear_arith); 57805430 },
        69 => { assert(is_share(69, 59511238)) by (nonlinear_arith); 59511238 },
        70 => { assert(is_share(70, 61246054)) by (nonlinear_arith); 61246054 },
        71 => { assert(is_share(71, 63010017)) by (nonlinear_arith); 63010017 },
        72 => { assert(is_share(72, 64803266)) by (nonlinear_arith); 64803266 },
        73 => { assert(is_share(73, 66625938)) by (nonlinear_arith); 66625938 },
        74 => { assert(is_share(74, 68478169)) by (nonlinear_arith); 68478169 },
        75 => { assert(is_share(75, 70360095)) by (nonlinear_arith); 70360095 },
        76 => { assert(is_share(76, 72271850)) by (nonlinear_arith); 72271850 },
        77 => { assert(is_share(77, 74213568)) by (nonlinear_arith); 74213568 },
        78 => { assert(is_share(78, 76185381)) by (nonlinear_arith); 76185381 },
        _ => { assert(is_share(79, 78187421)) by (nonlinear_arith); 78187421 },
    }
}

fn share_from_80(c: u8) -> (r: u32)
    requires
        80 <= c < 96,
    ensures
        is_share(c as int, r as int),
        r <= 1_000_000_000,
{
    match c {
        80 => { assert(is_share(80, 80219820)) by (nonlinear_arith); 80219820 },
        81 => { assert(is_share(81, 82282707)) by (nonlinear_arith); 82282707 },
        82 => { assert(is_share(82, 84376211)) by (nonlinear_arith); 84376211 },
        83 => { assert(is_share(83, 86500462)) by (nonlinear_arith); 86500462 },
        84 => { assert(is_share(84, 88655586)) by (nonlinear_arith); 88655586 },
        85 => { assert(is_share(85, 90841711)) by (nonlinear_arith); 90841711 },
        86 => { assert(is_share(86, 93058962)) by (nonlinear_arith); 93058962 },
        87 => { assert(is_share(87, 95307466)) by (nonlinear_arith); 95307466 },
        88 => { assert(is_share(88, 97587347)) by (nonlinear_arith); 97587347 },
        89 => { assert(is_share(89, 99898728)) by (nonlinear_arith); 99898728 },
        90 => { assert(is_share(90, 102241733)) by (nonlinear_arith); 102241733 },
        91 => { assert(is_share(91, 104616484)) by (nonlinear_arith); 104616484 },
        92 => { assert(is_share(92, 107023102)) by (nonlinear_arith); 107023102 },
        93 => { assert(is_share(93, 109461710)) by (nonlinear_arith); 109461710 },
        94 => { assert(is_share(94, 111932427)) by (nonlinear_arith); 111932427 },
        _ => { assert(is_share(95, 114435373)) by (nonlinear_arith); 114435373 },
    }
}

fn share_from_96(c: u8) -> (r: u32)
    requires
        96 <= c < 112,
    ensures
        is_share(c as int, r as int),
        r <= 1_000_000_000,
{
    match c {
        96 => { assert(is_share(96, 116970667)) by (nonlinear_arith); 116970667 },
        97 => { assert(is_share(97, 119538427)) by (nonlinear_arith); 119538427 },
        98 => { assert(is_share(98, 122138772)) by (nonlinear_arith); 122138772 },
        99 => { assert(is_share(99, 124771817)) by (nonlinear_arith); 124771817 },
        100 => { assert(is_share(100, 127437680)) by (nonlinear_arith); 127437680 },
        101 => { assert(is_share(101, 130136476)) by (nonlinear_arith); 130136476 },
        102 => { assert(is_share(102, 132868321)) by (nonlinear_arith); 132868321 },
        103 => { assert(is_share(103, 135633329)) by (nonlinear_arith); 135633329 },
        104 => { assert(is_share(104, 138431615)) by (nonlinear_arith); 138431615 },
        105 => { assert(is_share(105, 141263291)) by (nonlinear_arith); 141263291 },
        106 => { assert(is_share(106, 144128470)) by (nonlinear_arith); 144128470 },
        107 => { assert(is_share(107, 147027266)) by (nonlinear_arith); 147027266 },
        108 => { assert(is_share(108, 149959789)) by (nonlinear_arith); 149959789 },
        109 => { assert(is_share(109, 152926151)) by (nonlinear_arith); 152926151 },
        110 => { assert(is_share(110, 155926463)) by (nonlinear_arith); 155926463 },
        _ => { assert(is_share(111, 158960835)) by (nonlinear_arith); 158960835 },
    }
}

fn share_from_112(c: u8) -> (r: u32)
    requires
        112 <= c < 128,
    ensures
        is_share(c as int, r as int),
        r <= 1_000_000_000,
{
    match c {
        112 => { assert(is_share(112, 162029375)) by (nonlinear_arith); 162029375 },
        113 => { assert(is_share(113, 165132194)) by (nonlinear_arith); 165132194 },
        114 => { assert(is_share(114, 168269400)) by (nonlinear_arith); 168269400 },
        115 => { assert(is_share(115, 171441100)) by (nonlinear_arith); 171441100 },
        116 => { assert(is_share(116, 174647403)) by (nonlinear_arith); 174647403 },
        117 => { assert(is_share(117, 177888415)) by (nonlinear_arith); 177888415 },
        118 => { assert(is_share(118, 181164244)) by (nonlinear_arith); 181164244 },
        119 => { assert(is_share(119, 184474994)) by (nonlinear_arith); 184474994 },
        120 => { assert(is_share(120, 187820772)) by (nonlinear_arith); 187820772 },
        121 => { assert(is_share(121, 191201682)) by (nonlinear_arith); 191201682 },
        122 => { assert(is_share(122, 194617830)) by (nonlinear_arith); 194617830 },
        123 => { assert(is_share(123, 198069319)) by (nonlinear_arith); 198069319 },
        124 => { assert(is_share(124, 201556253)) by (nonlinear_arith); 201556253 },
        125 => { assert(is_share(125, 205078736)) by (nonlinear_arith); 205078736 },
        126 => { assert(is_share(126, 208636870)) by (nonlinear_arith); 208636870 },
        _ => { assert(is_share(127, 212230757)) by (nonlinear_arith); 212230757 },
    }
}

fn share_from_128(c: u8) -> (r: u32)
    requires
        128 <= c < 144,
    ensures
        is_share(c as int, r as int),
        r <= 1_000_000_000,
{
    match c {
        128 => { assert(is_share(128, 215860500)) by (nonlinear_arith); 215860500 },
        129 => { assert(is_share(129, 219526199)) by (nonlinear_arith); 219526199 },
        130 => { assert(is_share(130, 223227957)) by (nonlinear_arith); 223227957 },
        131 => { assert(is_share(131, 226965873)) by (nonlinear_arith); 226965873 },
        132 => { assert(is_share(132, 230740048)) by (nonlinear_arith); 230740048 },
        133 => { assert(is_share(133, 234550582)) by (nonlinear_arith); 234550582 },
        134 => { assert(is_share(134, 238397573)) by (nonlinear_arith); 238397573 },
        135 => { assert(is_share(135, 242281122)) by (nonlinear_arith); 242281122 },
        136 => { assert(is_share(136, 246201326)) by (nonlinear_arith); 246201326 },
        137 => { assert(is_share(137, 250158284)) by (nonlinear_arith); 250158284 },
        138 => { assert(is_share(138, 254152094)) by (nonlinear_arith); 254152094 },
        139 => { assert(is_share(139, 258182852)) by (nonlinear_arith); 258182852 },
        140 => { assert(is_share(140, 262250657)) by (nonlinear_arith); 262250657 },
        141 => { assert(is_share(141, 266355604)) by (nonlinear_arith); 266355604 },
        142 => { assert(is_share(142, 270497791)) by (nonlinear_arith); 270497791 },
        _ => { assert(is_share(143, 274677312)) by (nonlinear_arith); 274677312 },
    }
}

fn share_from_144(c: u8) -> (r: u32)
    requires
        144 <= c < 160,
    ensures
        is_share(c as int, r as int),
        r <= 1_000_000_000,
{
    match c {
        144 => { assert(is_share(144, 278894263)) by (nonlinear_arith); 278894263 },
        145 => { assert(is_share(145, 283148740)) by (nonlinear_arith); 283148740 },
        146 => { assert(is_share(146, 287440837)) by (nonlinear_arith); 287440837 },
        147 => { assert(is_share(147, 291770649)) by (nonlinear_arith); 291770649 },
        148 => { assert(is_share(148, 296138270)) by (nonlinear_arith); 296138270 },
        149 => { assert(is_share(149, 300543794)) by (nonlinear_arith); 300543794 },
        150 => { assert(is_share(150, 304987314)) by (nonlinear_arith); 304987314 },
        151 => { assert(is_share(151, 309468922)) by (nonlinear_arith); 309468922 },
        152 => { assert(is_share(152, 313988713)) by (nonlinear_arith); 313988713 },
        153 => { assert(is_share(153, 318546778)) by (nonlinear_arith); 318546778 },
        154 => { assert(is_share(154, 323143209)) by (nonlinear_arith); 323143209 },
        155 => { assert(is_share(155, 327778098)) by (nonlinear_arith); 327778098 },
        156 => { assert(is_share(156, 332451536)) by (nonlinear_arith); 332451536 },
        157 => { assert(is_share(157, 337163615)) by (nonlinear_arith); 337163615 },
        158 => { assert(is_share(158, 341914424)) by (nonlinear_arith); 341914424 },
        _ => { assert(is_share(159, 346704056)) by (nonlinear_arith); 346704056 },
    }
}

fn share_from_160(c: u8) -> (r: u32)
    requires
        160 <= c < 176,
    ensures
        is_share(c as int, r as int),
        r <= 1_000_000_000,
{
    match c {
        160 => { assert(is_share(160, 351532599)) by (nonlinear_arith); 351532599 },
        161 => { assert(is_share(161, 356400144)) by (nonlinear_arith); 356400144 },
        162 => { assert(is_share(162, 361306779)) by (nonlinear_arith); 361306779 },
        163 => { assert(is_share(163, 366252595)) by (nonlinear_arith); 366252595 },
        164 => { assert(is_share(164, 371237680)) by (nonlinear_arith); 371237680 },
        165 => { assert(is_share(165, 376262122)) by (nonlinear_arith); 376262122 },
        166 => { assert(is_share(166, 381326011)) by (nonlinear_arith); 381326011 },
        167 => { assert(is_share(167, 386429433)) by (nonlinear_arith); 386429433 },
        168 => { assert(is_share(168, 391572477)) by (nonlinear_arith); 391572477 },
        169 => { assert(is_share(169, 396755230)) by (nonlinear_arith); 396755230 },
        170 => { assert(is_share(170, 401977779)) by (nonlinear_arith); 401977779 },
        171 => { assert(is_share(171, 407240211)) by (nonlinear_arith); 407240211 },
        172 => { assert(is_share(172, 412542613)) by (nonlinear_arith); 412542613 },
        173 => { assert(is_share(173, 417885070)) by (nonlinear_arith); 417885070 },
        174 => { assert(is_share(174, 423267669)) by (nonlinear_arith); 423267669 },
        _ => { assert(is_share(175, 428690496)) by (nonlinear_arith); 428690496 },
    }
}

fn share_from_176(c: u8) -> (r: u32)
    requires
        176 <= c < 192,
    ensures
        is_share(c as int, r as int),
        r <= 1_000_000_000,
{
    match c {
        176 => { assert(is_share(176, 434153636)) by (nonlinear_arith); 434153636 },
        177 => { assert(is_share(177, 439657173)) by (nonlinear_arith); 439657173 },
        178 => { assert(is_share(178, 445201194)) by (nonlinear_arith); 445201194 },
        179 => { assert(is_share(179, 450785782)) by (nonlinear_arith); 450785782 },
        180 => { assert(is_share(180, 456411023)) by (nonlinear_arith); 456411023 },
        181 => { assert(is_share(181, 462076999)) by (nonlinear_arith); 462076999 },
        182 => { assert(is_share(182, 467783796)) by (nonlinear_arith); 467783796 },
        183 => { assert(is_share(183, 473531496)) by (nonlinear_arith); 473531496 },
        184 => { assert(is_share(184, 479320183)) by (nonlinear_arith); 479320183 },
        185 => { assert(is_share(185, 485149940)) by (nonlinear_arith); 485149940 },
        186 => { assert(is_share(186, 491020849)) by (nonlinear_arith); 491020849 },
        187 => { assert(is_share(187, 496932995)) by (nonlinear_arith); 496932995 },
        188 => { assert(is_share(188, 502886458)) by (nonlinear_arith); 502886458 },
        189 => { assert(is_share(189, 508881320)) by (nonlinear_arith); 508881320 },
        190 => { assert(is_share(190, 514917665)) by (nonlinear_arith); 514917665 },
        _ => { assert(is_share(191, 520995573)) by (nonlinear_arith); 520995573 },
    }
}

fn share_from_192(c: u8) -> (r: u32)
    requires
        192 <= c < 208,
    ensures
        is_share(c as int, r as int),
        r <= 1_000_000_000,
{
    match c {
        192 => { assert(is_share(192, 527115125)) by (nonlinear_arith); 527115125 },
        193 => { assert(is_share(193, 533276404)) by (nonlinear_arith); 533276404 },
        194 => { assert(is_share(194, 539479489)) by (nonlinear_arith); 539479489 },
        195 => { assert(is_share(195, 545724461)) by (nonlinear_arith); 545724461 },
        196 => { assert(is_share(196, 552011401)) by (nonlinear_arith); 552011401 },
        197 => { assert(is_share(197, 558340389)) by (nonlinear_arith); 558340389 },
        198 => { assert(is_share(198, 564711505)) by (nonlinear_arith); 564711505 },
        199 => { assert(is_share(199, 571124829)) by (nonlinear_arith); 571124829 },
        200 => { assert(is_share(200, 577580440)) by (nonlinear_arith); 577580440 },
        201 => { assert(is_share(201, 584078417)) by (nonlinear_arith); 584078417 },
        202 => { assert(is_share(202, 590618840)) by (nonlinear_arith); 590618840 },
        203 => { assert(is_share(203, 597201788)) by (nonlinear_arith); 597201788 },
        204 => { assert(is_share(204, 603827338)) by (nonlinear_arith); 603827338 },
        205 => { assert(is_share(205, 610495570)) by (nonlinear_arith); 610495570 },
        206 => { assert(is_share(206, 617206562)) by (nonlinear_arith); 617206562 },
        _ => { assert(is_share(207, 623960391)) by (nonlinear_arith); 623960391 },
    }
}

fn share_from_208(c: u8) -> (r: u32)
    requires
        208 <= c < 224,
    ensures
        is_share(c as int, r as int),
        r <= 1_000_000_000,
{
    match c {
        208 => { assert(is_share(208, 630757136)) by (nonlinear_arith); 630757136 },
        209 => { assert(is_share(209, 637596873)) by (nonlinear_arith); 637596873 },
        210 => { assert(is_share(210, 644479681)) by (nonlinear_arith); 644479681 },
        211 => { assert(is_share(211, 651405637)) by (nonlinear_arith); 651405637 },
        212 => { assert(is_share(212, 658374817)) by (nonlinear_arith); 658374817 },
        213 => { assert(is_share(213, 665387298)) by (nonlinear_arith); 665387298 },
        214 => { assert(is_share(214, 672443156)) by (nonlinear_arith); 672443156 },
        215 => { assert(is_share(215, 679542469)) by (nonlinear_arith); 679542469 },
        216 => { assert(is_share(216, 686685312)) by (nonlinear_arith); 686685312 },
        217 => { assert(is_share(217, 693871761)) by (nonlinear_arith); 693871761 },
        218 => { assert(is_share(218, 701101891)) by (nonlinear_arith); 701101891 },
        219 => { assert(is_share(219, 708375779)) by (nonlinear_arith); 708375779 },
        220 => { assert(is_share(220, 715693500)) by (nonlinear_arith); 715693500 },
        221 => { assert(is_share(221, 723055128)) by (nonlinear_arith); 723055128 },
        222 => { assert(is_share(222, 730460740)) by (nonlinear_arith); 730460740 },
        _ => { assert(is_share(223, 737910408)) by (nonlinear_arith); 737910408 },
    }
}

fn share_from_224(c: u8) -> (r: u32)
    requires
        224 <= c < 240,
    ensures
        is_share(c as int, r as int),
        r <= 1_000_000_000,
{
    match c {
        224 => { assert(is_share(224, 745404209)) by (nonlinear_arith); 745404209 },
        225 => { assert(is_share(225, 752942216)) by (nonlinear_arith); 752942216 },
        226 => { assert(is_share(226, 760524504)) by (nonlinear_arith); 760524504 },
        227 => { assert(is_share(227, 768151147)) by (nonlinear_arith); 768151147 },
        228 => { assert(is_share(228, 775822218)) by (nonlinear_arith); 775822218 },
        229 => { assert(is_share(229, 783537791)) by (nonlinear_arith); 783537791 },
        230 => { assert(is_share(230, 791297940)) by (nonlinear_arith); 791297940 },
        231 => { assert(is_share(231, 799102738)) by (nonlinear_arith); 799102738 },
        232 => { assert(is_share(232, 806952257)) by (nonlinear_arith); 806952257 },
        233 => { assert(is_share(233, 814846572)) by (nonlinear_arith); 814846572 },
        234 => { assert(is_share(234, 822785754)) by (nonlinear_arith); 822785754 },
        235 => { assert(is_share(235, 830769876)) by (nonlinear_arith); 830769876 },
        236 => { assert(is_share(236, 838799011)) by (nonlinear_arith); 838799011 },
        237 => { assert(is_share(237, 846873231)) by (nonlinear_arith); 846873231 },
        238 => { assert(is_share(238, 854992608)) by (nonlinear_arith); 854992608 },
        _ => { assert(is_share(239, 863157213)) by (nonlinear_arith); 863157213 },
    }
}

fn share_from_240(c: u8) -> (r: u32)
    requires
        240 <= c < 256,
    ensures
        is_share(c as int, r as int),
        r <= 1_000_000_000,
{
    match c {
        240 => { assert(is_share(240, 871367119)) by (nonlinear_arith); 871367119 },
        241 => { assert(is_share(241, 879622396)) by (nonlinear_arith); 879622396 },
        242 => { assert(is_share(242, 887923117)) by (nonlinear_arith); 887923117 },
        243 => { assert(is_share(243, 896269353)) by (nonlinear_arith); 896269353 },
        244 => { assert(is_share(244, 904661174)) by (nonlinear_arith); 904661174 },
        245 => { assert(is_share(245, 913098651)) by (nonlinear_arith); 913098651 },
        246 => { assert(is_share(246, 921581856)) by (nonlinear_arith); 921581856 },
        247 => { assert(is_share(247, 930110858)) by (nonlinear_arith); 930110858 },
        248 => { assert(is_share(248, 938685728)) by (nonlinear_arith); 938685728 },
        249 => { assert(is_share(249, 947306536)) by (nonlinear_arith); 947306536 },
        250 => { assert(is_share(250, 955973353)) by (nonlinear_arith); 955973353 },
        251 => { assert(is_share(251, 964686247)) by (nonlinear_arith); 964686247 },
        252 => { assert(is_share(252, 973445290)) by (nonlinear_arith); 973445290 },
        253 => { assert(is_share(253, 982250550)) by (nonlinear_arith); 982250550 },
        254 => { assert(is_share(254, 991102097)) by (nonlinear_arith); 991102097 },
        _ => { assert(is_share(255, 1000000000)) by (nonlinear_arith); 1000000000 },
    }
}

proof fn lemma_fifth_grows(a: int, b: int)
    requires
        0 <= a <= b,
    ensures
        fifth(a) <= fifth(b),
{
    assert(a * a <= b * b) by (nonlinear_arith)
        requires
            0 <= a <= b,
    ;
    assert(a * a * a <= b * b * b) by (nonlinear_arith)
        requires
            0 <= a <= b,
            a * a <= b * b,
    ;
    assert(a * a * a * a <= b * b * b * b) by (nonlinear_arith)
        requires
            0 <= a <= b,
            a * a * a <= b * b * b,
            0 <= a * a * a,
    ;
    assert(fifth(a) <= fifth(b)) by (nonlinear_arith)
        requires
            0 <= a <= b,
            a * a * a * a <= b * b * b * b,
            0 <= a * a * a * a,
    ;
}

proof fn lemma_one_share(c: int, v: int, w: int)
    requires
        is_share(c, v),
        is_share(c, w),
    ensures
        v == w,
{
    if c > 10 && v != w {
        let (low, high) = if v < w {
            (v, w)
        } else {
            (w, v)
        };
        lemma_fifth_grows(low + 1, high);
        let k = twelfth(10761);
        assert(k > 0) by (nonlinear_arith)
            requires
                k == twelfth(10761),
        ;
        assert(fifth(low + 1) * k <= fifth(high) * k) by (nonlinear_arith)
            requires
                fifth(low + 1) <= fifth(high),
                k > 0,
        ;
    }
}

/// The share of light of a channel in billionths, rounded down.
pub open spec fn share(c: u8) -> int {
    choose|v: int| is_share(c as int, v)
}

/// The share of light of a channel in billionths, rounded down.
pub fn share_of(c: u8) -> (r: u32)
    ensures
        r == share(c),
        is_share(c as int, r as int),
        r <= 1_000_000_000,
{
    let r: u32 = match c / 16 {
        0 => share_from_0(c),
        1 => share_from_16(c),
        2 => share_from_32(c),
        3 => share_from_48(c),
        4 => share_from_64(c),
        5 => share_from_80(c),
        6 => share_from_96(c),
        7 => share_from_112(c),
        8 => share_from_128(c),
        9 => share_from_144(c),
        10 => share_from_160(c),
        11 => share_from_176(c),
        12 => share_from_192(c),
        13 => share_from_208(c),
        14 => share_from_224(c),
        _ => share_from_240(c),
    };
    proof {
        lemma_one_share(c as int, r as int, share(c));
    }
    r
}

/// How bright a colour is, in ten-thousandths of a billionth: the shares of red, green and blue with
/// the weights of the sRGB colour space.
pub open spec fn brightness(r: u8, g: u8, b: u8) -> int {
    2126 * share(r) + 7152 * share(g) + 722 * share(b)
}

/// How bright a colour is.
pub fn brightness_of(r: u8, g: u8, b: u8) -> (l: u64)
    ensures
        l == brightness(r, g, b),
{
    2126 * share_of(r) as u64 + 7152 * share_of(g) as u64 + 722 * share_of(b) as u64
}

} // verus!
