use vstd::prelude::*;

verus! {

/// Reference signal strength of the path-loss model: dBm at one meter.
pub const RSSI_AT_1M_DBM: i16 = -35;

/// Path-loss exponent of the model, scaled by ten (the model uses 2.5).
pub const PATH_LOSS_EXPONENT_X10: i16 = 25;

/// Observations closer together than this many millimeters are
/// considered redundant samples of the same vantage point (5 meters).
pub const MIN_DISTANCE_BETWEEN_OBS_MM: u64 = 5000;

/// A geographic fix. Latitude and longitude are degrees in units of
/// 1e-7 degree; the timestamp is whole seconds since the Unix epoch.
#[derive(Clone, Copy, Debug, PartialEq, Eq, Structural)]
pub struct Position {
    pub lat_e7: i64,
    pub lon_e7: i64,
    pub timestamp: i64,
}

impl Position {
    /// Latitude within +/-90 degrees, longitude within +/-180 degrees.
    pub open spec fn wf(self) -> bool {
        &&& -900_000_000 <= self.lat_e7 <= 900_000_000
        &&& -1_800_000_000 <= self.lon_e7 <= 1_800_000_000
    }
}

/// One signal-strength sample of an access point taken at a known position.
#[derive(Clone, Copy, Debug, PartialEq, Eq, Structural)]
pub struct Observation {
    pub position: Position,
    /// Received signal strength in dBm.
    pub signal_strength: i8,
    /// Distance to the transmitter in millimeters, estimated from
    /// `signal_strength` by the log-distance path-loss model.
    pub distance_mm: u64,
}

impl Observation {
    pub open spec fn wf(self) -> bool {
        self.position.wf()
    }
}

/// 10 raised to the power `n`.
pub open spec fn pow10(n: nat) -> nat
    decreases n,
{
    if n == 0 {
        1
    } else {
        10 * pow10((n - 1) as nat)
    }
}

/// The 25th roots of the powers of ten in 2^20-scaled fixed point:
/// `step_scale(r)` is `10^(r/25) * 2^20`, rounded to the nearest integer,
/// for `0 <= r < 25`.
pub open spec fn step_scale(r: int) -> nat {
    if r == 0 {
        1048576
    } else if r == 1 {
        1149741
    } else if r == 2 {
        1260666
    } else if r == 3 {
        1382292
    } else if r == 4 {
        1515653
    } else if r == 5 {
        1661881
    } else if r == 6 {
        1822216
    } else if r == 7 {
        1998020
    } else if r == 8 {
        2190786
    } else if r == 9 {
        2402149
    } else if r == 10 {
        2633904
    } else if r == 11 {
        2888018
    } else if r == 12 {
        3166649
    } else if r == 13 {
        3472161
    } else if r == 14 {
        3807149
    } else if r == 15 {
        4174456
    } else if r == 16 {
        4577200
    } else if r == 17 {
        5018800
    } else if r == 18 {
        5503005
    } else if r == 19 {
        6033925
    } else if r == 20 {
        6616067
    } else if r == 21 {
        7254374
    } else if r == 22 {
        7954262
    } else if r == 23 {
        8721675
    } else if r == 24 {
        9563127
    } else {
        0
    }
}

/// The log-distance path-loss estimate of the distance to a transmitter,
/// in millimeters, as a function of the received signal strength in dBm:
/// the fixed-point realization of `1000 * 10^((-35 - rssi) / 25)`,
/// which is `10^((A - rssi) / (10 n))` meters with reference strength
/// `A = -35` dBm at one meter and path-loss exponent `n = 2.5`.
pub open spec fn rssi_distance_mm(rssi: int) -> int {
    let e = (RSSI_AT_1M_DBM as int) - rssi;
    let q = e / 25;
    let r = e % 25;
    if q >= 0 {
        (1000 * pow10(q as nat) * step_scale(r)) as int / 0x100000
    } else {
        (1000 * step_scale(r)) as int / (0x100000 * pow10((-q) as nat)) as int
    }
}

fn step_scale_val(r: u32) -> (v: u64)
    requires
        r < 25,
    ensures
        v as nat == step_scale(r as int),
        1048576 <= v <= 9563127,
{
    match r {
        0 => 1048576,
        1 => 1149741,
        2 => 1260666,
        3 => 1382292,
        4 => 1515653,
        5 => 1661881,
        6 => 1822216,
        7 => 1998020,
        8 => 2190786,
        9 => 2402149,
        10 => 2633904,
        11 => 2888018,
        12 => 3166649,
        13 => 3472161,
        14 => 3807149,
        15 => 4174456,
        16 => 4577200,
        17 => 5018800,
        18 => 5503005,
        19 => 6033925,
        20 => 6616067,
        21 => 7254374,
        22 => 7954262,
        23 => 8721675,
        _ => 9563127,
    }
}

fn pow10_val(n: u32) -> (v: u64)
    requires
        n <= 7,
    ensures
        v as nat == pow10(n as nat),
        1 <= v <= 10_000_000,
{
    proof {
        reveal_with_fuel(pow10, 9);
    }
    match n {
        0 => 1,
        1 => 10,
        2 => 100,
        3 => 1_000,
        4 => 10_000,
        5 => 100_000,
        6 => 1_000_000,
        _ => 10_000_000,
    }
}

/// Estimated distance in millimeters for a received signal strength,
/// by the log-distance path-loss model: `RSSI_AT_1M_DBM` is the
/// reference strength and the divisor 25 is `PATH_LOSS_EXPONENT_X10`,
/// ten times the path-loss exponent 2.5. The millimeter grid truncates:
/// a signal stronger than +40 dBm estimates below one millimeter and
/// yields 0, while on the -100 to 0 dBm operating range the estimate is
/// at least 39 mm, as the second clause states.
pub fn rssi_to_distance(rssi: i8) -> (d: u64)
    ensures
        d as int == rssi_distance_mm(rssi as int),
        -100 <= rssi <= 0 ==> d >= 39,
{
    proof {
        if -100 <= rssi < 0 {
            lemma_rssi_distance_strictly_decreasing(rssi as int, 0);
        }
        if -100 <= rssi <= 0 {
            lemma_distance_value(0);
        }
    }
    let e: i32 = (RSSI_AT_1M_DBM as i32) - (rssi as i32);
    if e >= 0 {
        let eu = e as u32;
        let q = eu / 25;
        let r = eu % 25;
        let num = 1000u64 * pow10_val(q) * step_scale_val(r);
        num / 0x100000
    } else {
        let m = (-e) as u32;
        let mm = m % 25;
        let (qm, r): (u32, u32) = if mm == 0 {
            (m / 25, 0)
        } else {
            (m / 25 + 1, 25 - mm)
        };
        proof {
            vstd::arithmetic::div_mod::lemma_fundamental_div_mod_converse(
                (RSSI_AT_1M_DBM as int) - (rssi as int),
                25,
                -(qm as int),
                r as int,
            );
        }
        let den = 0x100000u64 * pow10_val(qm);
        (1000u64 * step_scale_val(r)) / den
    }
}

/// The path-loss distance estimate tabulated over the -100 to 0 dBm
/// operating range: `distance_table(i) == rssi_distance_mm(i)` there,
/// which `lemma_distance_value` proves entry by entry.
pub open spec fn distance_table(i: int) -> int {
    if i == -100 {
        398107
    } else if i == -99 {
        363078
    } else if i == -98 {
        331131
    } else if i == -97 {
        301995
    } else if i == -96 {
        275422
    } else if i == -95 {
        251188
    } else if i == -94 {
        229086
    } else if i == -93 {
        208929
    } else if i == -92 {
        190546
    } else if i == -91 {
        173780
    } else if i == -90 {
        158489
    } else if i == -89 {
        144543
    } else if i == -88 {
        131825
    } else if i == -87 {
        120226
    } else if i == -86 {
        109647
    } else if i == -85 {
        100000
    } else if i == -84 {
        91201
    } else if i == -83 {
        83176
    } else if i == -82 {
        75857
    } else if i == -81 {
        69183
    } else if i == -80 {
        63095
    } else if i == -79 {
        57543
    } else if i == -78 {
        52480
    } else if i == -77 {
        47863
    } else if i == -76 {
        43651
    } else if i == -75 {
        39810
    } else if i == -74 {
        36307
    } else if i == -73 {
        33113
    } else if i == -72 {
        30199
    } else if i == -71 {
        27542
    } else if i == -70 {
        25118
    } else if i == -69 {
        22908
    } else if i == -68 {
        20892
    } else if i == -67 {
        19054
    } else if i == -66 {
        17378
    } else if i == -65 {
        15848
    } else if i == -64 {
        14454
    } else if i == -63 {
        13182
    } else if i == -62 {
        12022
    } else if i == -61 {
        10964
    } else if i == -60 {
        10000
    } else if i == -59 {
        9120
    } else if i == -58 {
        8317
    } else if i == -57 {
        7585
    } else if i == -56 {
        6918
    } else if i == -55 {
        6309
    } else if i == -54 {
        5754
    } else if i == -53 {
        5248
    } else if i == -52 {
        4786
    } else if i == -51 {
        4365
    } else if i == -50 {
        3981
    } else if i == -49 {
        3630
    } else if i == -48 {
        3311
    } else if i == -47 {
        3019
    } else if i == -46 {
        2754
    } else if i == -45 {
        2511
    } else if i == -44 {
        2290
    } else if i == -43 {
        2089
    } else if i == -42 {
        1905
    } else if i == -41 {
        1737
    } else if i == -40 {
        1584
    } else if i == -39 {
        1445
    } else if i == -38 {
        1318
    } else if i == -37 {
        1202
    } else if i == -36 {
        1096
    } else if i == -35 {
        1000
    } else if i == -34 {
        912
    } else if i == -33 {
        831
    } else if i == -32 {
        758
    } else if i == -31 {
        691
    } else if i == -30 {
        630
    } else if i == -29 {
        575
    } else if i == -28 {
        524
    } else if i == -27 {
        478
    } else if i == -26 {
        436
    } else if i == -25 {
        398
    } else if i == -24 {
        363
    } else if i == -23 {
        331
    } else if i == -22 {
        301
    } else if i == -21 {
        275
    } else if i == -20 {
        251
    } else if i == -19 {
        229
    } else if i == -18 {
        208
    } else if i == -17 {
        190
    } else if i == -16 {
        173
    } else if i == -15 {
        158
    } else if i == -14 {
        144
    } else if i == -13 {
        131
    } else if i == -12 {
        120
    } else if i == -11 {
        109
    } else if i == -10 {
        100
    } else if i == -9 {
        91
    } else if i == -8 {
        83
    } else if i == -7 {
        75
    } else if i == -6 {
        69
    } else if i == -5 {
        63
    } else if i == -4 {
        57
    } else if i == -3 {
        52
    } else if i == -2 {
        47
    } else if i == -1 {
        43
    } else if i == 0 {
        39
    } else {
        0
    }
}

#[verifier::rlimit(100)]
proof fn lemma_distance_value_r0(i: int)
    requires
        -100 <= i < -89,
    ensures
        rssi_distance_mm(i) == distance_table(i),
{
    reveal_with_fuel(pow10, 9);
    if i == -100 {
        assert((65int) / 25 == 2);
        assert((65int) % 25 == 15);
        assert(pow10(2) == 100);
        assert((1000 * pow10(2) * step_scale(15)) as int == 417445600000);
        assert(417445600000int / 0x100000 == 398107);
        assert(rssi_distance_mm(-100) == 398107);
        assert(distance_table(-100) == 398107);
    } else if i == -99 {
        assert((64int) / 25 == 2);
        assert((64int) % 25 == 14);
        assert(pow10(2) == 100);
        assert((1000 * pow10(2) * step_scale(14)) as int == 380714900000);
        assert(380714900000int / 0x100000 == 363078);
        assert(rssi_distance_mm(-99) == 363078);
        assert(distance_table(-99) == 363078);
    } else if i == -98 {
        assert((63int) / 25 == 2);
        assert((63int) % 25 == 13);
        assert(pow10(2) == 100);
        assert((1000 * pow10(2) * step_scale(13)) as int == 347216100000);
        assert(347216100000int / 0x100000 == 331131);
        assert(rssi_distance_mm(-98) == 331131);
        assert(distance_table(-98) == 331131);
    } else if i == -97 {
        assert((62int) / 25 == 2);
        assert((62int) % 25 == 12);
        assert(pow10(2) == 100);
        assert((1000 * pow10(2) * step_scale(12)) as int == 316664900000);
        assert(316664900000int / 0x100000 == 301995);
        assert(rssi_distance_mm(-97) == 301995);
        assert(distance_table(-97) == 301995);
    } else if i == -96 {
        assert((61int) / 25 == 2);
        assert((61int) % 25 == 11);
        assert(pow10(2) == 100);
        assert((1000 * pow10(2) * step_scale(11)) as int == 288801800000);
        assert(288801800000int / 0x100000 == 275422);
        assert(rssi_distance_mm(-96) == 275422);
        assert(distance_table(-96) == 275422);
    } else if i == -95 {
        assert((60int) / 25 == 2);
        assert((60int) % 25 == 10);
        assert(pow10(2) == 100);
        assert((1000 * pow10(2) * step_scale(10)) as int == 263390400000);
        assert(263390400000int / 0x100000 == 251188);
        assert(rssi_distance_mm(-95) == 251188);
        assert(distance_table(-95) == 251188);
    } else if i == -94 {
        assert((59int) / 25 == 2);
        assert((59int) % 25 == 9);
        assert(pow10(2) == 100);
        assert((1000 * pow10(2) * step_scale(9)) as int == 240214900000);
        assert(240214900000int / 0x100000 == 229086);
        assert(rssi_distance_mm(-94) == 229086);
        assert(distance_table(-94) == 229086);
    } else if i == -93 {
        assert((58int) / 25 == 2);
        assert((58int) % 25 == 8);
        assert(pow10(2) == 100);
        assert((1000 * pow10(2) * step_scale(8)) as int == 219078600000);
        assert(219078600000int / 0x100000 == 208929);
        assert(rssi_distance_mm(-93) == 208929);
        assert(distance_table(-93) == 208929);
    } else if i == -92 {
        assert((57int) / 25 == 2);
        assert((57int) % 25 == 7);
        assert(pow10(2) == 100);
        assert((1000 * pow10(2) * step_scale(7)) as int == 199802000000);
        assert(199802000000int / 0x100000 == 190546);
        assert(rssi_distance_mm(-92) == 190546);
        assert(distance_table(-92) == 190546);
    } else if i == -91 {
        assert((56int) / 25 == 2);
        assert((56int) % 25 == 6);
        assert(pow10(2) == 100);
        assert((1000 * pow10(2) * step_scale(6)) as int == 182221600000);
        assert(182221600000int / 0x100000 == 173780);
        assert(rssi_distance_mm(-91) == 173780);
        assert(distance_table(-91) == 173780);
    } else if i == -90 {
        assert((55int) / 25 == 2);
        assert((55int) % 25 == 5);
        assert(pow10(2) == 100);
        assert((1000 * pow10(2) * step_scale(5)) as int == 166188100000);
        assert(166188100000int / 0x100000 == 158489);
        assert(rssi_distance_mm(-90) == 158489);
        assert(distance_table(-90) == 158489);
    }
}

#[verifier::rlimit(100)]
proof fn lemma_distance_value_r1(i: int)
    requires
        -89 <= i < -79,
    ensures
        rssi_distance_mm(i) == distance_table(i),
{
    reveal_with_fuel(pow10, 9);
    if i == -89 {
        assert((54int) / 25 == 2);
        assert((54int) % 25 == 4);
        assert(pow10(2) == 100);
        assert((1000 * pow10(2) * step_scale(4)) as int == 151565300000);
        assert(151565300000int / 0x100000 == 144543);
        assert(rssi_distance_mm(-89) == 144543);
        assert(distance_table(-89) == 144543);
    } else if i == -88 {
        assert((53int) / 25 == 2);
        assert((53int) % 25 == 3);
        assert(pow10(2) == 100);
        assert((1000 * pow10(2) * step_scale(3)) as int == 138229200000);
        assert(138229200000int / 0x100000 == 131825);
        assert(rssi_distance_mm(-88) == 131825);
        assert(distance_table(-88) == 131825);
    } else if i == -87 {
        assert((52int) / 25 == 2);
        assert((52int) % 25 == 2);
        assert(pow10(2) == 100);
        assert((1000 * pow10(2) * step_scale(2)) as int == 126066600000);
        assert(126066600000int / 0x100000 == 120226);
        assert(rssi_distance_mm(-87) == 120226);
        assert(distance_table(-87) == 120226);
    } else if i == -86 {
        assert((51int) / 25 == 2);
        assert((51int) % 25 == 1);
        assert(pow10(2) == 100);
        assert((1000 * pow10(2) * step_scale(1)) as int == 114974100000);
        assert(114974100000int / 0x100000 == 109647);
        assert(rssi_distance_mm(-86) == 109647);
        assert(distance_table(-86) == 109647);
    } else if i == -85 {
        assert((50int) / 25 == 2);
        assert((50int) % 25 == 0);
        assert(pow10(2) == 100);
        assert((1000 * pow10(2) * step_scale(0)) as int == 104857600000);
        assert(104857600000int / 0x100000 == 100000);
        assert(rssi_distance_mm(-85) == 100000);
        assert(distance_table(-85) == 100000);
    } else if i == -84 {
        assert((49int) / 25 == 1);
        assert((49int) % 25 == 24);
        assert(pow10(1) == 10);
        assert((1000 * pow10(1) * step_scale(24)) as int == 95631270000);
        assert(95631270000int / 0x100000 == 91201);
        assert(rssi_distance_mm(-84) == 91201);
        assert(distance_table(-84) == 91201);
    } else if i == -83 {
        assert((48int) / 25 == 1);
        assert((48int) % 25 == 23);
        assert(pow10(1) == 10);
        assert((1000 * pow10(1) * step_scale(23)) as int == 87216750000);
        assert(87216750000int / 0x100000 == 83176);
        assert(rssi_distance_mm(-83) == 83176);
        assert(distance_table(-83) == 83176);
    } else if i == -82 {
        assert((47int) / 25 == 1);
        assert((47int) % 25 == 22);
        assert(pow10(1) == 10);
        assert((1000 * pow10(1) * step_scale(22)) as int == 79542620000);
        assert(79542620000int / 0x100000 == 75857);
        assert(rssi_distance_mm(-82) == 75857);
        assert(distance_table(-82) == 75857);
    } else if i == -81 {
        assert((46int) / 25 == 1);
        assert((46int) % 25 == 21);
        assert(pow10(1) == 10);
        assert((1000 * pow10(1) * step_scale(21)) as int == 72543740000);
        assert(72543740000int / 0x100000 == 69183);
        assert(rssi_distance_mm(-81) == 69183);
        assert(distance_table(-81) == 69183);
    } else if i == -80 {
        assert((45int) / 25 == 1);
        assert((45int) % 25 == 20);
        assert(pow10(1) == 10);
        assert((1000 * pow10(1) * step_scale(20)) as int == 66160670000);
        assert(66160670000int / 0x100000 == 63095);
        assert(rssi_distance_mm(-80) == 63095);
        assert(distance_table(-80) == 63095);
    }
}

#[verifier::rlimit(100)]
proof fn lemma_distance_value_r2(i: int)
    requires
        -79 <= i < -69,
    ensures
        rssi_distance_mm(i) == distance_table(i),
{
    reveal_with_fuel(pow10, 9);
    if i == -79 {
        assert((44int) / 25 == 1);
        assert((44int) % 25 == 19);
        assert(pow10(1) == 10);
        assert((1000 * pow10(1) * step_scale(19)) as int == 60339250000);
        assert(60339250000int / 0x100000 == 57543);
        assert(rssi_distance_mm(-79) == 57543);
        assert(distance_table(-79) == 57543);
    } else if i == -78 {
        assert((43int) / 25 == 1);
        assert((43int) % 25 == 18);
        assert(pow10(1) == 10);
        assert((1000 * pow10(1) * step_scale(18)) as int == 55030050000);
        assert(55030050000int / 0x100000 == 52480);
        assert(rssi_distance_mm(-78) == 52480);
        assert(distance_table(-78) == 52480);
    } else if i == -77 {
        assert((42int) / 25 == 1);
        assert((42int) % 25 == 17);
        assert(pow10(1) == 10);
        assert((1000 * pow10(1) * step_scale(17)) as int == 50188000000);
        assert(50188000000int / 0x100000 == 47863);
        assert(rssi_distance_mm(-77) == 47863);
        assert(distance_table(-77) == 47863);
    } else if i == -76 {
        assert((41int) / 25 == 1);
        assert((41int) % 25 == 16);
        assert(pow10(1) == 10);
        assert((1000 * pow10(1) * step_scale(16)) as int == 45772000000);
        assert(45772000000int / 0x100000 == 43651);
        assert(rssi_distance_mm(-76) == 43651);
        assert(distance_table(-76) == 43651);
    } else if i == -75 {
        assert((40int) / 25 == 1);
        assert((40int) % 25 == 15);
        assert(pow10(1) == 10);
        assert((1000 * pow10(1) * step_scale(15)) as int == 41744560000);
        assert(41744560000int / 0x100000 == 39810);
        assert(rssi_distance_mm(-75) == 39810);
        assert(distance_table(-75) == 39810);
    } else if i == -74 {
        assert((39int) / 25 == 1);
        assert((39int) % 25 == 14);
        assert(pow10(1) == 10);
        assert((1000 * pow10(1) * step_scale(14)) as int == 38071490000);
        assert(38071490000int / 0x100000 == 36307);
        assert(rssi_distance_mm(-74) == 36307);
        assert(distance_table(-74) == 36307);
    } else if i == -73 {
        assert((38int) / 25 == 1);
        assert((38int) % 25 == 13);
        assert(pow10(1) == 10);
        assert((1000 * pow10(1) * step_scale(13)) as int == 34721610000);
        assert(34721610000int / 0x100000 == 33113);
        assert(rssi_distance_mm(-73) == 33113);
        assert(distance_table(-73) == 33113);
    } else if i == -72 {
        assert((37int) / 25 == 1);
        assert((37int) % 25 == 12);
        assert(pow10(1) == 10);
        assert((1000 * pow10(1) * step_scale(12)) as int == 31666490000);
        assert(31666490000int / 0x100000 == 30199);
        assert(rssi_distance_mm(-72) == 30199);
        assert(distance_table(-72) == 30199);
    } else if i == -71 {
        assert((36int) / 25 == 1);
        assert((36int) % 25 == 11);
        assert(pow10(1) == 10);
        assert((1000 * pow10(1) * step_scale(11)) as int == 28880180000);
        assert(28880180000int / 0x100000 == 27542);
        assert(rssi_distance_mm(-71) == 27542);
        assert(distance_table(-71) == 27542);
    } else if i == -70 {
        assert((35int) / 25 == 1);
        assert((35int) % 25 == 10);
        assert(pow10(1) == 10);
        assert((1000 * pow10(1) * step_scale(10)) as int == 26339040000);
        assert(26339040000int / 0x100000 == 25118);
        assert(rssi_distance_mm(-70) == 25118);
        assert(distance_table(-70) == 25118);
    }
}

#[verifier::rlimit(100)]
proof fn lemma_distance_value_r3(i: int)
    requires
        -69 <= i < -59,
    ensures
        rssi_distance_mm(i) == distance_table(i),
{
    reveal_with_fuel(pow10, 9);
    if i == -69 {
        assert((34int) / 25 == 1);
        assert((34int) % 25 == 9);
        assert(pow10(1) == 10);
        assert((1000 * pow10(1) * step_scale(9)) as int == 24021490000);
        assert(24021490000int / 0x100000 == 22908);
        assert(rssi_distance_mm(-69) == 22908);
        assert(distance_table(-69) == 22908);
    } else if i == -68 {
        assert((33int) / 25 == 1);
        assert((33int) % 25 == 8);
        assert(pow10(1) == 10);
        assert((1000 * pow10(1) * step_scale(8)) as int == 21907860000);
        assert(21907860000int / 0x100000 == 20892);
        assert(rssi_distance_mm(-68) == 20892);
        assert(distance_table(-68) == 20892);
    } else if i == -67 {
        assert((32int) / 25 == 1);
        assert((32int) % 25 == 7);
        assert(pow10(1) == 10);
        assert((1000 * pow10(1) * step_scale(7)) as int == 19980200000);
        assert(19980200000int / 0x100000 == 19054);
        assert(rssi_distance_mm(-67) == 19054);
        assert(distance_table(-67) == 19054);
    } else if i == -66 {
        assert((31int) / 25 == 1);
        assert((31int) % 25 == 6);
        assert(pow10(1) == 10);
        assert((1000 * pow10(1) * step_scale(6)) as int == 18222160000);
        assert(18222160000int / 0x100000 == 17378);
        assert(rssi_distance_mm(-66) == 17378);
        assert(distance_table(-66) == 17378);
    } else if i == -65 {
        assert((30int) / 25 == 1);
        assert((30int) % 25 == 5);
        assert(pow10(1) == 10);
        assert((1000 * pow10(1) * step_scale(5)) as int == 16618810000);
        assert(16618810000int / 0x100000 == 15848);
        assert(rssi_distance_mm(-65) == 15848);
        assert(distance_table(-65) == 15848);
    } else if i == -64 {
        assert((29int) / 25 == 1);
        assert((29int) % 25 == 4);
        assert(pow10(1) == 10);
        assert((1000 * pow10(1) * step_scale(4)) as int == 15156530000);
        assert(15156530000int / 0x100000 == 14454);
        assert(rssi_distance_mm(-64) == 14454);
        assert(distance_table(-64) == 14454);
    } else if i == -63 {
        assert((28int) / 25 == 1);
        assert((28int) % 25 == 3);
        assert(pow10(1) == 10);
        assert((1000 * pow10(1) * step_scale(3)) as int == 13822920000);
        assert(13822920000int / 0x100000 == 13182);
        assert(rssi_distance_mm(-63) == 13182);
        assert(distance_table(-63) == 13182);
    } else if i == -62 {
        assert((27int) / 25 == 1);
        assert((27int) % 25 == 2);
        assert(pow10(1) == 10);
        assert((1000 * pow10(1) * step_scale(2)) as int == 12606660000);
        assert(12606660000int / 0x100000 == 12022);
        assert(rssi_distance_mm(-62) == 12022);
        assert(distance_table(-62) == 12022);
    } else if i == -61 {
        assert((26int) / 25 == 1);
        assert((26int) % 25 == 1);
        assert(pow10(1) == 10);
        assert((1000 * pow10(1) * step_scale(1)) as int == 11497410000);
        assert(11497410000int / 0x100000 == 10964);
        assert(rssi_distance_mm(-61) == 10964);
        assert(distance_table(-61) == 10964);
    } else if i == -60 {
        assert((25int) / 25 == 1);
        assert((25int) % 25 == 0);
        assert(pow10(1) == 10);
        assert((1000 * pow10(1) * step_scale(0)) as int == 10485760000);
        assert(10485760000int / 0x100000 == 10000);
        assert(rssi_distance_mm(-60) == 10000);
        assert(distance_table(-60) == 10000);
    }
}

#[verifier::rlimit(100)]
proof fn lemma_distance_value_r4(i: int)
    requires
        -59 <= i < -49,
    ensures
        rssi_distance_mm(i) == distance_table(i),
{
    reveal_with_fuel(pow10, 9);
    if i == -59 {
        assert((24int) / 25 == 0);
        assert((24int) % 25 == 24);
        assert(pow10(0) == 1);
        assert((1000 * pow10(0) * step_scale(24)) as int == 9563127000);
        assert(9563127000int / 0x100000 == 9120);
        assert(rssi_distance_mm(-59) == 9120);
        assert(distance_table(-59) == 9120);
    } else if i == -58 {
        assert((23int) / 25 == 0);
        assert((23int) % 25 == 23);
        assert(pow10(0) == 1);
        assert((1000 * pow10(0) * step_scale(23)) as int == 8721675000);
        assert(8721675000int / 0x100000 == 8317);
        assert(rssi_distance_mm(-58) == 8317);
        assert(distance_table(-58) == 8317);
    } else if i == -57 {
        assert((22int) / 25 == 0);
        assert((22int) % 25 == 22);
        assert(pow10(0) == 1);
        assert((1000 * pow10(0) * step_scale(22)) as int == 7954262000);
        assert(7954262000int / 0x100000 == 7585);
        assert(rssi_distance_mm(-57) == 7585);
        assert(distance_table(-57) == 7585);
    } else if i == -56 {
        assert((21int) / 25 == 0);
        assert((21int) % 25 == 21);
        assert(pow10(0) == 1);
        assert((1000 * pow10(0) * step_scale(21)) as int == 7254374000);
        assert(7254374000int / 0x100000 == 6918);
        assert(rssi_distance_mm(-56) == 6918);
        assert(distance_table(-56) == 6918);
    } else if i == -55 {
        assert((20int) / 25 == 0);
        assert((20int) % 25 == 20);
        assert(pow10(0) == 1);
        assert((1000 * pow10(0) * step_scale(20)) as int == 6616067000);
        assert(6616067000int / 0x100000 == 6309);
        assert(rssi_distance_mm(-55) == 6309);
        assert(distance_table(-55) == 6309);
    } else if i == -54 {
        assert((19int) / 25 == 0);
        assert((19int) % 25 == 19);
        assert(pow10(0) == 1);
        assert((1000 * pow10(0) * step_scale(19)) as int == 6033925000);
        assert(6033925000int / 0x100000 == 5754);
        assert(rssi_distance_mm(-54) == 5754);
        assert(distance_table(-54) == 5754);
    } else if i == -53 {
        assert((18int) / 25 == 0);
        assert((18int) % 25 == 18);
        assert(pow10(0) == 1);
        assert((1000 * pow10(0) * step_scale(18)) as int == 5503005000);
        assert(5503005000int / 0x100000 == 5248);
        assert(rssi_distance_mm(-53) == 5248);
        assert(distance_table(-53) == 5248);
    } else if i == -52 {
        assert((17int) / 25 == 0);
        assert((17int) % 25 == 17);
        assert(pow10(0) == 1);
        assert((1000 * pow10(0) * step_scale(17)) as int == 5018800000);
        assert(5018800000int / 0x100000 == 4786);
        assert(rssi_distance_mm(-52) == 4786);
        assert(distance_table(-52) == 4786);
    } else if i == -51 {
        assert((16int) / 25 == 0);
        assert((16int) % 25 == 16);
        assert(pow10(0) == 1);
        assert((1000 * pow10(0) * step_scale(16)) as int == 4577200000);
        assert(4577200000int / 0x100000 == 4365);
        assert(rssi_distance_mm(-51) == 4365);
        assert(distance_table(-51) == 4365);
    } else if i == -50 {
        assert((15int) / 25 == 0);
        assert((15int) % 25 == 15);
        assert(pow10(0) == 1);
        assert((1000 * pow10(0) * step_scale(15)) as int == 4174456000);
        assert(4174456000int / 0x100000 == 3981);
        assert(rssi_distance_mm(-50) == 3981);
        assert(distance_table(-50) == 3981);
    }
}

#[verifier::rlimit(100)]
proof fn lemma_distance_value_r5(i: int)
    requires
        -49 <= i < -39,
    ensures
        rssi_distance_mm(i) == distance_table(i),
{
    reveal_with_fuel(pow10, 9);
    if i == -49 {
        assert((14int) / 25 == 0);
        assert((14int) % 25 == 14);
        assert(pow10(0) == 1);
        assert((1000 * pow10(0) * step_scale(14)) as int == 3807149000);
        assert(3807149000int / 0x100000 == 3630);
        assert(rssi_distance_mm(-49) == 3630);
        assert(distance_table(-49) == 3630);
    } else if i == -48 {
        assert((13int) / 25 == 0);
        assert((13int) % 25 == 13);
        assert(pow10(0) == 1);
        assert((1000 * pow10(0) * step_scale(13)) as int == 3472161000);
        assert(3472161000int / 0x100000 == 3311);
        assert(rssi_distance_mm(-48) == 3311);
        assert(distance_table(-48) == 3311);
    } else if i == -47 {
        assert((12int) / 25 == 0);
        assert((12int) % 25 == 12);
        assert(pow10(0) == 1);
        assert((1000 * pow10(0) * step_scale(12)) as int == 3166649000);
        assert(3166649000int / 0x100000 == 3019);
        assert(rssi_distance_mm(-47) == 3019);
        assert(distance_table(-47) == 3019);
    } else if i == -46 {
        assert((11int) / 25 == 0);
        assert((11int) % 25 == 11);
        assert(pow10(0) == 1);
        assert((1000 * pow10(0) * step_scale(11)) as int == 2888018000);
        assert(2888018000int / 0x100000 == 2754);
        assert(rssi_distance_mm(-46) == 2754);
        assert(distance_table(-46) == 2754);
    } else if i == -45 {
        assert((10int) / 25 == 0);
        assert((10int) % 25 == 10);
        assert(pow10(0) == 1);
        assert((1000 * pow10(0) * step_scale(10)) as int == 2633904000);
        assert(2633904000int / 0x100000 == 2511);
        assert(rssi_distance_mm(-45) == 2511);
        assert(distance_table(-45) == 2511);
    } else if i == -44 {
        assert((9int) / 25 == 0);
        assert((9int) % 25 == 9);
        assert(pow10(0) == 1);
        assert((1000 * pow10(0) * step_scale(9)) as int == 2402149000);
        assert(2402149000int / 0x100000 == 2290);
        assert(rssi_distance_mm(-44) == 2290);
        assert(distance_table(-44) == 2290);
    } else if i == -43 {
        assert((8int) / 25 == 0);
        assert((8int) % 25 == 8);
        assert(pow10(0) == 1);
        assert((1000 * pow10(0) * step_scale(8)) as int == 2190786000);
        assert(2190786000int / 0x100000 == 2089);
        assert(rssi_distance_mm(-43) == 2089);
        assert(distance_table(-43) == 2089);
    } else if i == -42 {
        assert((7int) / 25 == 0);
        assert((7int) % 25 == 7);
        assert(pow10(0) == 1);
        assert((1000 * pow10(0) * step_scale(7)) as int == 1998020000);
        assert(1998020000int / 0x100000 == 1905);
        assert(rssi_distance_mm(-42) == 1905);
        assert(distance_table(-42) == 1905);
    } else if i == -41 {
        assert((6int) / 25 == 0);
        assert((6int) % 25 == 6);
        assert(pow10(0) == 1);
        assert((1000 * pow10(0) * step_scale(6)) as int == 1822216000);
        assert(1822216000int / 0x100000 == 1737);
        assert(rssi_distance_mm(-41) == 1737);
        assert(distance_table(-41) == 1737);
    } else if i == -40 {
        assert((5int) / 25 == 0);
        assert((5int) % 25 == 5);
        assert(pow10(0) == 1);
        assert((1000 * pow10(0) * step_scale(5)) as int == 1661881000);
        assert(1661881000int / 0x100000 == 1584);
        assert(rssi_distance_mm(-40) == 1584);
        assert(distance_table(-40) == 1584);
    }
}

#[verifier::rlimit(100)]
proof fn lemma_distance_value_r6(i: int)
    requires
        -39 <= i < -29,
    ensures
        rssi_distance_mm(i) == distance_table(i),
{
    reveal_with_fuel(pow10, 9);
    if i == -39 {
        assert((4int) / 25 == 0);
        assert((4int) % 25 == 4);
        assert(pow10(0) == 1);
        assert((1000 * pow10(0) * step_scale(4)) as int == 1515653000);
        assert(1515653000int / 0x100000 == 1445);
        assert(rssi_distance_mm(-39) == 1445);
        assert(distance_table(-39) == 1445);
    } else if i == -38 {
        assert((3int) / 25 == 0);
        assert((3int) % 25 == 3);
        assert(pow10(0) == 1);
        assert((1000 * pow10(0) * step_scale(3)) as int == 1382292000);
        assert(1382292000int / 0x100000 == 1318);
        assert(rssi_distance_mm(-38) == 1318);
        assert(distance_table(-38) == 1318);
    } else if i == -37 {
        assert((2int) / 25 == 0);
        assert((2int) % 25 == 2);
        assert(pow10(0) == 1);
        assert((1000 * pow10(0) * step_scale(2)) as int == 1260666000);
        assert(1260666000int / 0x100000 == 1202);
        assert(rssi_distance_mm(-37) == 1202);
        assert(distance_table(-37) == 1202);
    } else if i == -36 {
        assert((1int) / 25 == 0);
        assert((1int) % 25 == 1);
        assert(pow10(0) == 1);
        assert((1000 * pow10(0) * step_scale(1)) as int == 1149741000);
        assert(1149741000int / 0x100000 == 1096);
        assert(rssi_distance_mm(-36) == 1096);
        assert(distance_table(-36) == 1096);
    } else if i == -35 {
        assert((0int) / 25 == 0);
        assert((0int) % 25 == 0);
        assert(pow10(0) == 1);
        assert((1000 * pow10(0) * step_scale(0)) as int == 1048576000);
        assert(1048576000int / 0x100000 == 1000);
        assert(rssi_distance_mm(-35) == 1000);
        assert(distance_table(-35) == 1000);
    } else if i == -34 {
        assert((-1int) / 25 == -1);
        assert((-1int) % 25 == 24);
        assert(pow10(1) == 10);
        assert((1000 * step_scale(24)) as int == 9563127000);
        assert((0x100000 * pow10(1)) as int == 10485760);
        assert(9563127000int / 10485760int == 912);
        assert(rssi_distance_mm(-34) == 912);
        assert(distance_table(-34) == 912);
    } else if i == -33 {
        assert((-2int) / 25 == -1);
        assert((-2int) % 25 == 23);
        assert(pow10(1) == 10);
        assert((1000 * step_scale(23)) as int == 8721675000);
        assert((0x100000 * pow10(1)) as int == 10485760);
        assert(8721675000int / 10485760int == 831);
        assert(rssi_distance_mm(-33) == 831);
        assert(distance_table(-33) == 831);
    } else if i == -32 {
        assert((-3int) / 25 == -1);
        assert((-3int) % 25 == 22);
        assert(pow10(1) == 10);
        assert((1000 * step_scale(22)) as int == 7954262000);
        assert((0x100000 * pow10(1)) as int == 10485760);
        assert(7954262000int / 10485760int == 758);
        assert(rssi_distance_mm(-32) == 758);
        assert(distance_table(-32) == 758);
    } else if i == -31 {
        assert((-4int) / 25 == -1);
        assert((-4int) % 25 == 21);
        assert(pow10(1) == 10);
        assert((1000 * step_scale(21)) as int == 7254374000);
        assert((0x100000 * pow10(1)) as int == 10485760);
        assert(7254374000int / 10485760int == 691);
        assert(rssi_distance_mm(-31) == 691);
        assert(distance_table(-31) == 691);
    } else if i == -30 {
        assert((-5int) / 25 == -1);
        assert((-5int) % 25 == 20);
        assert(pow10(1) == 10);
        assert((1000 * step_scale(20)) as int == 6616067000);
        assert((0x100000 * pow10(1)) as int == 10485760);
        assert(6616067000int / 10485760int == 630);
        assert(rssi_distance_mm(-30) == 630);
        assert(distance_table(-30) == 630);
    }
}

#[verifier::rlimit(100)]
proof fn lemma_distance_value_r7(i: int)
    requires
        -29 <= i < -19,
    ensures
        rssi_distance_mm(i) == distance_table(i),
{
    reveal_with_fuel(pow10, 9);
    if i == -29 {
        assert((-6int) / 25 == -1);
        assert((-6int) % 25 == 19);
        assert(pow10(1) == 10);
        assert((1000 * step_scale(19)) as int == 6033925000);
        assert((0x100000 * pow10(1)) as int == 10485760);
        assert(6033925000int / 10485760int == 575);
        assert(rssi_distance_mm(-29) == 575);
        assert(distance_table(-29) == 575);
    } else if i == -28 {
        assert((-7int) / 25 == -1);
        assert((-7int) % 25 == 18);
        assert(pow10(1) == 10);
        assert((1000 * step_scale(18)) as int == 5503005000);
        assert((0x100000 * pow10(1)) as int == 10485760);
        assert(5503005000int / 10485760int == 524);
        assert(rssi_distance_mm(-28) == 524);
        assert(distance_table(-28) == 524);
    } else if i == -27 {
        assert((-8int) / 25 == -1);
        assert((-8int) % 25 == 17);
        assert(pow10(1) == 10);
        assert((1000 * step_scale(17)) as int == 5018800000);
        assert((0x100000 * pow10(1)) as int == 10485760);
        assert(5018800000int / 10485760int == 478);
        assert(rssi_distance_mm(-27) == 478);
        assert(distance_table(-27) == 478);
    } else if i == -26 {
        assert((-9int) / 25 == -1);
        assert((-9int) % 25 == 16);
        assert(pow10(1) == 10);
        assert((1000 * step_scale(16)) as int == 4577200000);
        assert((0x100000 * pow10(1)) as int == 10485760);
        assert(4577200000int / 10485760int == 436);
        assert(rssi_distance_mm(-26) == 436);
        assert(distance_table(-26) == 436);
    } else if i == -25 {
        assert((-10int) / 25 == -1);
        assert((-10int) % 25 == 15);
        assert(pow10(1) == 10);
        assert((1000 * step_scale(15)) as int == 4174456000);
        assert((0x100000 * pow10(1)) as int == 10485760);
        assert(4174456000int / 10485760int == 398);
        assert(rssi_distance_mm(-25) == 398);
        assert(distance_table(-25) == 398);
    } else if i == -24 {
        assert((-11int) / 25 == -1);
        assert((-11int) % 25 == 14);
        assert(pow10(1) == 10);
        assert((1000 * step_scale(14)) as int == 3807149000);
        assert((0x100000 * pow10(1)) as int == 10485760);
        assert(3807149000int / 10485760int == 363);
        assert(rssi_distance_mm(-24) == 363);
        assert(distance_table(-24) == 363);
    } else if i == -23 {
        assert((-12int) / 25 == -1);
        assert((-12int) % 25 == 13);
        assert(pow10(1) == 10);
        assert((1000 * step_scale(13)) as int == 3472161000);
        assert((0x100000 * pow10(1)) as int == 10485760);
        assert(3472161000int / 10485760int == 331);
        assert(rssi_distance_mm(-23) == 331);
        assert(distance_table(-23) == 331);
    } else if i == -22 {
        assert((-13int) / 25 == -1);
        assert((-13int) % 25 == 12);
        assert(pow10(1) == 10);
        assert((1000 * step_scale(12)) as int == 3166649000);
        assert((0x100000 * pow10(1)) as int == 10485760);
        assert(3166649000int / 10485760int == 301);
        assert(rssi_distance_mm(-22) == 301);
        assert(distance_table(-22) == 301);
    } else if i == -21 {
        assert((-14int) / 25 == -1);
        assert((-14int) % 25 == 11);
        assert(pow10(1) == 10);
        assert((1000 * step_scale(11)) as int == 2888018000);
        assert((0x100000 * pow10(1)) as int == 10485760);
        assert(2888018000int / 10485760int == 275);
        assert(rssi_distance_mm(-21) == 275);
        assert(distance_table(-21) == 275);
    } else if i == -20 {
        assert((-15int) / 25 == -1);
        assert((-15int) % 25 == 10);
        assert(pow10(1) == 10);
        assert((1000 * step_scale(10)) as int == 2633904000);
        assert((0x100000 * pow10(1)) as int == 10485760);
        assert(2633904000int / 10485760int == 251);
        assert(rssi_distance_mm(-20) == 251);
        assert(distance_table(-20) == 251);
    }
}

#[verifier::rlimit(100)]
proof fn lemma_distance_value_r8(i: int)
    requires
        -19 <= i < -9,
    ensures
        rssi_distance_mm(i) == distance_table(i),
{
    reveal_with_fuel(pow10, 9);
    if i == -19 {
        assert((-16int) / 25 == -1);
        assert((-16int) % 25 == 9);
        assert(pow10(1) == 10);
        assert((1000 * step_scale(9)) as int == 2402149000);
        assert((0x100000 * pow10(1)) as int == 10485760);
        assert(2402149000int / 10485760int == 229);
        assert(rssi_distance_mm(-19) == 229);
        assert(distance_table(-19) == 229);
    } else if i == -18 {
        assert((-17int) / 25 == -1);
        assert((-17int) % 25 == 8);
        assert(pow10(1) == 10);
        assert((1000 * step_scale(8)) as int == 2190786000);
        assert((0x100000 * pow10(1)) as int == 10485760);
        assert(2190786000int / 10485760int == 208);
        assert(rssi_distance_mm(-18) == 208);
        assert(distance_table(-18) == 208);
    } else if i == -17 {
        assert((-18int) / 25 == -1);
        assert((-18int) % 25 == 7);
        assert(pow10(1) == 10);
        assert((1000 * step_scale(7)) as int == 1998020000);
        assert((0x100000 * pow10(1)) as int == 10485760);
        assert(1998020000int / 10485760int == 190);
        assert(rssi_distance_mm(-17) == 190);
        assert(distance_table(-17) == 190);
    } else if i == -16 {
        assert((-19int) / 25 == -1);
        assert((-19int) % 25 == 6);
        assert(pow10(1) == 10);
        assert((1000 * step_scale(6)) as int == 1822216000);
        assert((0x100000 * pow10(1)) as int == 10485760);
        assert(1822216000int / 10485760int == 173);
        assert(rssi_distance_mm(-16) == 173);
        assert(distance_table(-16) == 173);
    } else if i == -15 {
        assert((-20int) / 25 == -1);
        assert((-20int) % 25 == 5);
        assert(pow10(1) == 10);
        assert((1000 * step_scale(5)) as int == 1661881000);
        assert((0x100000 * pow10(1)) as int == 10485760);
        assert(1661881000int / 10485760int == 158);
        assert(rssi_distance_mm(-15) == 158);
        assert(distance_table(-15) == 158);
    } else if i == -14 {
        assert((-21int) / 25 == -1);
        assert((-21int) % 25 == 4);
        assert(pow10(1) == 10);
        assert((1000 * step_scale(4)) as int == 1515653000);
        assert((0x100000 * pow10(1)) as int == 10485760);
        assert(1515653000int / 10485760int == 144);
        assert(rssi_distance_mm(-14) == 144);
        assert(distance_table(-14) == 144);
    } else if i == -13 {
        assert((-22int) / 25 == -1);
        assert((-22int) % 25 == 3);
        assert(pow10(1) == 10);
        assert((1000 * step_scale(3)) as int == 1382292000);
        assert((0x100000 * pow10(1)) as int == 10485760);
        assert(1382292000int / 10485760int == 131);
        assert(rssi_distance_mm(-13) == 131);
        assert(distance_table(-13) == 131);
    } else if i == -12 {
        assert((-23int) / 25 == -1);
        assert((-23int) % 25 == 2);
        assert(pow10(1) == 10);
        assert((1000 * step_scale(2)) as int == 1260666000);
        assert((0x100000 * pow10(1)) as int == 10485760);
        assert(1260666000int / 10485760int == 120);
        assert(rssi_distance_mm(-12) == 120);
        assert(distance_table(-12) == 120);
    } else if i == -11 {
        assert((-24int) / 25 == -1);
        assert((-24int) % 25 == 1);
        assert(pow10(1) == 10);
        assert((1000 * step_scale(1)) as int == 1149741000);
        assert((0x100000 * pow10(1)) as int == 10485760);
        assert(1149741000int / 10485760int == 109);
        assert(rssi_distance_mm(-11) == 109);
        assert(distance_table(-11) == 109);
    } else if i == -10 {
        assert((-25int) / 25 == -1);
        assert((-25int) % 25 == 0);
        assert(pow10(1) == 10);
        assert((1000 * step_scale(0)) as int == 1048576000);
        assert((0x100000 * pow10(1)) as int == 10485760);
        assert(1048576000int / 10485760int == 100);
        assert(rssi_distance_mm(-10) == 100);
        assert(distance_table(-10) == 100);
    }
}

#[verifier::rlimit(100)]
proof fn lemma_distance_value_r9(i: int)
    requires
        -9 <= i < 1,
    ensures
        rssi_distance_mm(i) == distance_table(i),
{
    reveal_with_fuel(pow10, 9);
    if i == -9 {
        assert((-26int) / 25 == -2);
        assert((-26int) % 25 == 24);
        assert(pow10(2) == 100);
        assert((1000 * step_scale(24)) as int == 9563127000);
        assert((0x100000 * pow10(2)) as int == 104857600);
        assert(9563127000int / 104857600int == 91);
        assert(rssi_distance_mm(-9) == 91);
        assert(distance_table(-9) == 91);
    } else if i == -8 {
        assert((-27int) / 25 == -2);
        assert((-27int) % 25 == 23);
        assert(pow10(2) == 100);
        assert((1000 * step_scale(23)) as int == 8721675000);
        assert((0x100000 * pow10(2)) as int == 104857600);
        assert(8721675000int / 104857600int == 83);
        assert(rssi_distance_mm(-8) == 83);
        assert(distance_table(-8) == 83);
    } else if i == -7 {
        assert((-28int) / 25 == -2);
        assert((-28int) % 25 == 22);
        assert(pow10(2) == 100);
        assert((1000 * step_scale(22)) as int == 7954262000);
        assert((0x100000 * pow10(2)) as int == 104857600);
        assert(7954262000int / 104857600int == 75);
        assert(rssi_distance_mm(-7) == 75);
        assert(distance_table(-7) == 75);
    } else if i == -6 {
        assert((-29int) / 25 == -2);
        assert((-29int) % 25 == 21);
        assert(pow10(2) == 100);
        assert((1000 * step_scale(21)) as int == 7254374000);
        assert((0x100000 * pow10(2)) as int == 104857600);
        assert(7254374000int / 104857600int == 69);
        assert(rssi_distance_mm(-6) == 69);
        assert(distance_table(-6) == 69);
    } else if i == -5 {
        assert((-30int) / 25 == -2);
        assert((-30int) % 25 == 20);
        assert(pow10(2) == 100);
        assert((1000 * step_scale(20)) as int == 6616067000);
        assert((0x100000 * pow10(2)) as int == 104857600);
        assert(6616067000int / 104857600int == 63);
        assert(rssi_distance_mm(-5) == 63);
        assert(distance_table(-5) == 63);
    } else if i == -4 {
        assert((-31int) / 25 == -2);
        assert((-31int) % 25 == 19);
        assert(pow10(2) == 100);
        assert((1000 * step_scale(19)) as int == 6033925000);
        assert((0x100000 * pow10(2)) as int == 104857600);
        assert(6033925000int / 104857600int == 57);
        assert(rssi_distance_mm(-4) == 57);
        assert(distance_table(-4) == 57);
    } else if i == -3 {
        assert((-32int) / 25 == -2);
        assert((-32int) % 25 == 18);
        assert(pow10(2) == 100);
        assert((1000 * step_scale(18)) as int == 5503005000);
        assert((0x100000 * pow10(2)) as int == 104857600);
        assert(5503005000int / 104857600int == 52);
        assert(rssi_distance_mm(-3) == 52);
        assert(distance_table(-3) == 52);
    } else if i == -2 {
        assert((-33int) / 25 == -2);
        assert((-33int) % 25 == 17);
        assert(pow10(2) == 100);
        assert((1000 * step_scale(17)) as int == 5018800000);
        assert((0x100000 * pow10(2)) as int == 104857600);
        assert(5018800000int / 104857600int == 47);
        assert(rssi_distance_mm(-2) == 47);
        assert(distance_table(-2) == 47);
    } else if i == -1 {
        assert((-34int) / 25 == -2);
        assert((-34int) % 25 == 16);
        assert(pow10(2) == 100);
        assert((1000 * step_scale(16)) as int == 4577200000);
        assert((0x100000 * pow10(2)) as int == 104857600);
        assert(4577200000int / 104857600int == 43);
        assert(rssi_distance_mm(-1) == 43);
        assert(distance_table(-1) == 43);
    } else if i == 0 {
        assert((-35int) / 25 == -2);
        assert((-35int) % 25 == 15);
        assert(pow10(2) == 100);
        assert((1000 * step_scale(15)) as int == 4174456000);
        assert((0x100000 * pow10(2)) as int == 104857600);
        assert(4174456000int / 104857600int == 39);
        assert(rssi_distance_mm(0) == 39);
        assert(distance_table(0) == 39);
    }
}

/// On the operating range the fixed-point distance equals its table
/// entry.
proof fn lemma_distance_value(i: int)
    requires
        -100 <= i <= 0,
    ensures
        rssi_distance_mm(i) == distance_table(i),
{
    if -100 <= i < -89 {
        lemma_distance_value_r0(i);
    }
    if -89 <= i < -79 {
        lemma_distance_value_r1(i);
    }
    if -79 <= i < -69 {
        lemma_distance_value_r2(i);
    }
    if -69 <= i < -59 {
        lemma_distance_value_r3(i);
    }
    if -59 <= i < -49 {
        lemma_distance_value_r4(i);
    }
    if -49 <= i < -39 {
        lemma_distance_value_r5(i);
    }
    if -39 <= i < -29 {
        lemma_distance_value_r6(i);
    }
    if -29 <= i < -19 {
        lemma_distance_value_r7(i);
    }
    if -19 <= i < -9 {
        lemma_distance_value_r8(i);
    }
    if -9 <= i < 1 {
        lemma_distance_value_r9(i);
    }
}

#[verifier::rlimit(100)]
proof fn lemma_table_step(i: int)
    requires
        -100 <= i < 0,
    ensures
        distance_table(i) > distance_table(i + 1),
{
}

proof fn lemma_distance_step(i: int)
    requires
        -100 <= i < 0,
    ensures
        rssi_distance_mm(i) > rssi_distance_mm(i + 1),
{
    lemma_distance_value(i);
    lemma_distance_value(i + 1);
    lemma_table_step(i);
}

/// The path-loss distance estimate is strictly decreasing in the signal
/// strength over the dBm range -100 to 0: a stronger signal always gives
/// a strictly smaller estimated distance.
pub proof fn lemma_rssi_distance_strictly_decreasing(r1: int, r2: int)
    requires
        -100 <= r1 < r2 <= 0,
    ensures
        rssi_distance_mm(r1) > rssi_distance_mm(r2),
    decreases r2 - r1,
{
    if r2 == r1 + 1 {
        lemma_distance_step(r1);
    } else {
        lemma_rssi_distance_strictly_decreasing(r1, r2 - 1);
        lemma_distance_step(r2 - 1);
    }
}


/// Linear interpolation of one coordinate: the value moves from `a`
/// toward `b` by the fraction `num / den`, with the fractional part
/// rounded toward `a`.
pub open spec fn lerp_e7(a: i64, b: i64, num: int, den: int) -> int {
    if b >= a {
        a + ((b - a) * num) / den
    } else {
        a - ((a - b) * num) / den
    }
}

/// The position interpolated between two bracketing fixes at time `t`:
/// coordinates move by the fraction of the time interval that has
/// passed, and the result is stamped with `t`. Two fixes at the same
/// instant yield the first fix's coordinates.
pub open spec fn interpolate_pair(t: i64, p1: Position, p2: Position) -> Position {
    let num = t - p1.timestamp;
    let den = p2.timestamp - p1.timestamp;
    if den == 0 {
        Position { lat_e7: p1.lat_e7, lon_e7: p1.lon_e7, timestamp: t }
    } else {
        Position {
            lat_e7: lerp_e7(p1.lat_e7, p2.lat_e7, num, den) as i64,
            lon_e7: lerp_e7(p1.lon_e7, p2.lon_e7, num, den) as i64,
            timestamp: t,
        }
    }
}

/// The first pair of consecutive fixes at or after index `i` whose
/// timestamps bracket `t`, interpolated; `None` when no pair brackets `t`.
pub open spec fn bracketed_at(t: i64, s: Seq<Position>, i: int) -> Option<Position>
    decreases s.len() - i,
{
    if i < 0 || i + 1 >= s.len() {
        Option::<Position>::None
    } else if s[i].timestamp <= t && t <= s[i + 1].timestamp {
        Option::Some(interpolate_pair(t, s[i], s[i + 1]))
    } else {
        bracketed_at(t, s, i + 1)
    }
}

/// Position of a time-ordered track at time `t`: `None` for an empty
/// track, the lone fix for a one-fix track, and otherwise the linear
/// interpolation within the first bracketing pair of consecutive fixes,
/// or `None` when no pair brackets `t`.
pub open spec fn position_at_spec(t: i64, s: Seq<Position>) -> Option<Position> {
    if s.len() == 0 {
        Option::<Position>::None
    } else if s.len() == 1 {
        Option::Some(s[0])
    } else {
        bracketed_at(t, s, 0)
    }
}

fn lerp_exec(a: i64, b: i64, num: i128, den: i128) -> (r: i64)
    requires
        0 <= num <= den,
        0 < den < 0x1_0000_0000_0000_0000,
        -1_800_000_000 <= a <= 1_800_000_000,
        -1_800_000_000 <= b <= 1_800_000_000,
    ensures
        r as int == lerp_e7(a, b, num as int, den as int),
        a <= b ==> a <= r <= b,
        b < a ==> b <= r <= a,
{
    let diff: u64 = if b >= a {
        (b - a) as u64
    } else {
        (a - b) as u64
    };
    proof {
        vstd::arithmetic::mul::lemma_mul_nonnegative(diff as int, num as int);
        vstd::arithmetic::mul::lemma_mul_upper_bound(
            diff as int,
            3_600_000_000,
            num as int,
            0xffff_ffff_ffff_ffff,
        );
        vstd::arithmetic::mul::lemma_mul_inequality(num as int, den as int, diff as int);
        assert((num as int) * (diff as int) <= (den as int) * (diff as int));
        vstd::arithmetic::div_mod::lemma_div_is_ordered(
            (num as int) * (diff as int),
            (den as int) * (diff as int),
            den as int,
        );
        vstd::arithmetic::div_mod::lemma_div_multiples_vanish(diff as int, den as int);
        assert((den as int) * (diff as int) == (diff as int) * (den as int)) by (nonlinear_arith);
        assert((num as int) * (diff as int) == (diff as int) * (num as int)) by (nonlinear_arith);
        vstd::arithmetic::div_mod::lemma_div_pos_is_pos((diff as int) * (num as int), den as int);
        assert(((diff as int) * (num as int)) / (den as int) <= diff as int);
    }
    let delta = ((diff as u128) * (num as u128)) / (den as u128);
    if b >= a {
        a + (delta as i64)
    } else {
        a - (delta as i64)
    }
}

/// Position of the track at the given capture timestamp (seconds since
/// the Unix epoch). The track must be a time-ordered sequence of valid
/// fixes; the result is `None` exactly when the track is empty or no
/// consecutive pair of fixes brackets the timestamp (no GPS coverage).
pub fn get_position_at(timestamp_secs: i64, positions: &Vec<Position>) -> (r: Option<Position>)
    requires
        forall|i: int| 0 <= i < positions@.len() ==> (#[trigger] positions@[i]).wf(),
    ensures
        r == position_at_spec(timestamp_secs, positions@),
        r matches Some(p) ==> p.wf() || p == positions@[0],
{
    let n = positions.len();
    if n == 0 {
        return Option::None;
    }
    if n == 1 {
        return Option::Some(positions[0]);
    }
    let t = timestamp_secs;
    let mut i: usize = 0;
    while i + 1 < n
        invariant
            n == positions@.len(),
            t == timestamp_secs,
            0 <= i < n,
            1 < n,
            forall|k: int| 0 <= k < positions@.len() ==> (#[trigger] positions@[k]).wf(),
            bracketed_at(t, positions@, 0) == bracketed_at(t, positions@, i as int),
        decreases n - i,
    {
        let p1 = positions[i];
        let p2 = positions[i + 1];
        if p1.timestamp <= t && t <= p2.timestamp {
            proof {
                assert(bracketed_at(t, positions@, i as int)
                    == Option::Some(interpolate_pair(t, positions@[i as int], positions@[i as int + 1])));
            }
            if p2.timestamp == p1.timestamp {
                proof {
                    assert(interpolate_pair(t, positions@[i as int], positions@[i as int + 1])
                        == (Position { lat_e7: p1.lat_e7, lon_e7: p1.lon_e7, timestamp: t }));
                }
                return Option::Some(Position { lat_e7: p1.lat_e7, lon_e7: p1.lon_e7, timestamp: t });
            }
            let num = (t as i128) - (p1.timestamp as i128);
            let den = (p2.timestamp as i128) - (p1.timestamp as i128);
            let lat = lerp_exec(p1.lat_e7, p2.lat_e7, num, den);
            let lon = lerp_exec(p1.lon_e7, p2.lon_e7, num, den);
            proof {
                assert(interpolate_pair(t, positions@[i as int], positions@[i as int + 1])
                    == (Position { lat_e7: lat, lon_e7: lon, timestamp: t }));
            }
            return Option::Some(Position { lat_e7: lat, lon_e7: lon, timestamp: t });
        }
        i = i + 1;
    }
    Option::None
}


/// Weight of a signal strength in the weighted centroid: zero at
/// -100 dBm or weaker, rising linearly to 100 at -25 dBm.
pub open spec fn signal_weight(rssi: int) -> int {
    if rssi <= -100 {
        0
    } else {
        ((rssi + 100) * 100) / 75
    }
}

pub proof fn lemma_signal_weight_range(rssi: int)
    requires
        -128 <= rssi <= 127,
    ensures
        0 <= signal_weight(rssi) <= 303,
{
    if rssi > -100 {
        vstd::arithmetic::div_mod::lemma_div_pos_is_pos((rssi + 100) * 100, 75);
        vstd::arithmetic::div_mod::lemma_div_is_ordered((rssi + 100) * 100, 22700, 75);
    }
}

pub open spec fn sum_weights(s: Seq<Observation>) -> int
    decreases s.len(),
{
    if s.len() == 0 {
        0
    } else {
        sum_weights(s.drop_last()) + signal_weight(s.last().signal_strength as int)
    }
}

pub open spec fn sum_weighted_lat(s: Seq<Observation>) -> int
    decreases s.len(),
{
    if s.len() == 0 {
        0
    } else {
        sum_weighted_lat(s.drop_last())
            + signal_weight(s.last().signal_strength as int) * (s.last().position.lat_e7 as int)
    }
}

pub open spec fn sum_weighted_lon(s: Seq<Observation>) -> int
    decreases s.len(),
{
    if s.len() == 0 {
        0
    } else {
        sum_weighted_lon(s.drop_last())
            + signal_weight(s.last().signal_strength as int) * (s.last().position.lon_e7 as int)
    }
}

pub open spec fn sum_lat(s: Seq<Observation>) -> int
    decreases s.len(),
{
    if s.len() == 0 {
        0
    } else {
        sum_lat(s.drop_last()) + s.last().position.lat_e7 as int
    }
}

pub open spec fn sum_lon(s: Seq<Observation>) -> int
    decreases s.len(),
{
    if s.len() == 0 {
        0
    } else {
        sum_lon(s.drop_last()) + s.last().position.lon_e7 as int
    }
}

/// Integer division rounded toward zero (for a positive divisor).
pub open spec fn div_trunc(a: int, b: int) -> int {
    if a >= 0 {
        a / b
    } else {
        -((-a) / b)
    }
}

/// The signal-weighted centroid of a list of observations: coordinates
/// are the weight-normalized means of the observed coordinates, the
/// timestamp is the first observation's. When every weight is zero the
/// plain arithmetic mean of the coordinates is taken instead. `None`
/// only for an empty list.
pub open spec fn weighted_centroid_spec(s: Seq<Observation>) -> Option<Position> {
    if s.len() == 0 {
        Option::<Position>::None
    } else {
        let w = sum_weights(s);
        if w == 0 {
            Option::Some(
                Position {
                    lat_e7: div_trunc(sum_lat(s), s.len() as int) as i64,
                    lon_e7: div_trunc(sum_lon(s), s.len() as int) as i64,
                    timestamp: s[0].position.timestamp,
                },
            )
        } else {
            Option::Some(
                Position {
                    lat_e7: div_trunc(sum_weighted_lat(s), w) as i64,
                    lon_e7: div_trunc(sum_weighted_lon(s), w) as i64,
                    timestamp: s[0].position.timestamp,
                },
            )
        }
    }
}

fn signal_weight_val(rssi: i8) -> (w: u64)
    ensures
        w as int == signal_weight(rssi as int),
        w <= 303,
{
    proof {
        lemma_signal_weight_range(rssi as int);
    }
    if rssi <= -100 {
        0
    } else {
        let base: u64 = ((rssi as i64) + 100) as u64;
        (base * 100) / 75
    }
}

/// Truncating division of `a` by the positive `b`, where `|a| <= b * m`;
/// the quotient then stays within `[-m, m]`.
fn div_trunc_val(a: i128, b: i128, Ghost(m): Ghost<int>) -> (r: i128)
    requires
        0 < b,
        0 <= m,
        -(b * m) <= a as int <= b * m,
        -0x7fff_ffff_ffff_ffff_ffff_ffff_ffff_ffff <= a as int,
    ensures
        r as int == div_trunc(a as int, b as int),
        -m <= r as int <= m,
{
    proof {
        vstd::arithmetic::div_mod::lemma_div_multiples_vanish(m, b as int);
        vstd::arithmetic::div_mod::lemma_div_is_ordered(a as int, (b as int) * m, b as int);
        vstd::arithmetic::div_mod::lemma_div_is_ordered(-(a as int), (b as int) * m, b as int);
        if a >= 0 {
            vstd::arithmetic::div_mod::lemma_div_pos_is_pos(a as int, b as int);
        } else {
            vstd::arithmetic::div_mod::lemma_div_pos_is_pos(-(a as int), b as int);
        }
    }
    if a >= 0 {
        ((a as u128) / (b as u128)) as i128
    } else {
        -((((-a) as u128) / (b as u128)) as i128)
    }
}

/// The signal-weighted centroid of the observations (see
/// `weighted_centroid_spec`): the position whose coordinates are the
/// weight-normalized means of the observed coordinates, falling back to
/// the unweighted mean when the total weight is zero.
pub fn weighted_centroid(observations: &Vec<Observation>) -> (r: Option<Position>)
    requires
        forall|i: int| 0 <= i < observations@.len() ==> (#[trigger] observations@[i]).wf(),
    ensures
        r == weighted_centroid_spec(observations@),
        r matches Some(p) ==> p.wf(),
{
    let n = observations.len();
    if n == 0 {
        return Option::None;
    }
    let mut sw: u128 = 0;
    let mut slat: i128 = 0;
    let mut slon: i128 = 0;
    let mut ulat: i128 = 0;
    let mut ulon: i128 = 0;
    let mut i: usize = 0;
    while i < n
        invariant
            n == observations@.len(),
            0 < n,
            0 <= i <= n,
            forall|k: int| 0 <= k < observations@.len() ==> (#[trigger] observations@[k]).wf(),
            sw as int == sum_weights(observations@.take(i as int)),
            sw as int <= 303 * (i as int),
            slat as int == sum_weighted_lat(observations@.take(i as int)),
            slon as int == sum_weighted_lon(observations@.take(i as int)),
            ulat as int == sum_lat(observations@.take(i as int)),
            ulon as int == sum_lon(observations@.take(i as int)),
            -((sw as int) * 900_000_000) <= slat as int <= (sw as int) * 900_000_000,
            -((sw as int) * 1_800_000_000) <= slon as int <= (sw as int) * 1_800_000_000,
            -((i as int) * 900_000_000) <= ulat as int <= (i as int) * 900_000_000,
            -((i as int) * 1_800_000_000) <= ulon as int <= (i as int) * 1_800_000_000,
        decreases n - i,
    {
        let obs = observations[i];
        let w = signal_weight_val(obs.signal_strength);
        proof {
            let s = observations@;
            assert(s.take(i as int + 1).drop_last() =~= s.take(i as int));
            assert(s.take(i as int + 1).last() == s[i as int]);
            assert((w as int) * (obs.position.lat_e7 as int) <= (w as int) * 900_000_000
                && -((w as int) * 900_000_000) <= (w as int) * (obs.position.lat_e7 as int))
                by (nonlinear_arith)
                requires
                    0 <= w as int,
                    -900_000_000 <= obs.position.lat_e7 as int <= 900_000_000,
            ;
            assert((w as int) * (obs.position.lon_e7 as int) <= (w as int) * 1_800_000_000
                && -((w as int) * 1_800_000_000) <= (w as int) * (obs.position.lon_e7 as int))
                by (nonlinear_arith)
                requires
                    0 <= w as int,
                    -1_800_000_000 <= obs.position.lon_e7 as int <= 1_800_000_000,
            ;
        }
        sw = sw + (w as u128);
        slat = slat + (w as i128) * (obs.position.lat_e7 as i128);
        slon = slon + (w as i128) * (obs.position.lon_e7 as i128);
        ulat = ulat + (obs.position.lat_e7 as i128);
        ulon = ulon + (obs.position.lon_e7 as i128);
        i = i + 1;
    }
    proof {
        assert(observations@.take(n as int) =~= observations@);
    }
    let first_ts = observations[0].position.timestamp;
    if sw == 0 {
        let lat = div_trunc_val(ulat, n as i128, Ghost(900_000_000));
        let lon = div_trunc_val(ulon, n as i128, Ghost(1_800_000_000));
        Option::Some(Position { lat_e7: lat as i64, lon_e7: lon as i64, timestamp: first_ts })
    } else {
        let swi = sw as i128;
        let lat = div_trunc_val(slat, swi, Ghost(900_000_000));
        let lon = div_trunc_val(slon, swi, Ghost(1_800_000_000));
        Option::Some(Position { lat_e7: lat as i64, lon_e7: lon as i64, timestamp: first_ts })
    }
}


/// Two observations with the same signal strength have the arithmetic
/// midpoint of their positions as their weighted centroid.
pub proof fn lemma_weighted_centroid_equal_pair(s: Seq<Observation>)
    requires
        s.len() == 2,
        s[0].signal_strength == s[1].signal_strength,
        s[0].wf(),
        s[1].wf(),
    ensures
        weighted_centroid_spec(s) == Option::Some(
            Position {
                lat_e7: div_trunc(s[0].position.lat_e7 + s[1].position.lat_e7, 2) as i64,
                lon_e7: div_trunc(s[0].position.lon_e7 + s[1].position.lon_e7, 2) as i64,
                timestamp: s[0].position.timestamp,
            },
        ),
{
    let w = signal_weight(s[0].signal_strength as int);
    lemma_signal_weight_range(s[0].signal_strength as int);
    assert(s.drop_last().drop_last() =~= Seq::<Observation>::empty());
    assert(s.drop_last().last() == s[0]);
    assert(s.last() == s[1]);
    let l0 = s[0].position.lat_e7 as int;
    let l1 = s[1].position.lat_e7 as int;
    let g0 = s[0].position.lon_e7 as int;
    let g1 = s[1].position.lon_e7 as int;
    let e = s.drop_last().drop_last();
    assert(sum_weights(e) == 0);
    assert(sum_lat(e) == 0);
    assert(sum_lon(e) == 0);
    assert(sum_weighted_lat(e) == 0);
    assert(sum_weighted_lon(e) == 0);
    assert(sum_weights(s.drop_last()) == w);
    assert(sum_lat(s.drop_last()) == l0);
    assert(sum_lon(s.drop_last()) == g0);
    assert(sum_weighted_lat(s.drop_last()) == w * l0);
    assert(sum_weighted_lon(s.drop_last()) == w * g0);
    assert(sum_weights(s) == 2 * w);
    assert(sum_lat(s) == l0 + l1);
    assert(sum_lon(s) == g0 + g1);
    assert(sum_weighted_lat(s) == w * l0 + w * l1);
    assert(sum_weighted_lon(s) == w * g0 + w * g1);
    if w != 0 {
        lemma_weighted_pair_quotient(w, l0, l1);
        lemma_weighted_pair_quotient(w, g0, g1);
    }
}

/// For a positive weight, the weighted mean of two equally weighted
/// values is their truncated midpoint.
proof fn lemma_weighted_pair_quotient(w: int, x0: int, x1: int)
    requires
        0 < w,
    ensures
        div_trunc(w * x0 + w * x1, 2 * w) == div_trunc(x0 + x1, 2),
{
    let sum = x0 + x1;
    assert(w * x0 + w * x1 == w * (x0 + x1)) by (nonlinear_arith);
    assert(w * x0 + w * x1 == w * sum);
    if sum >= 0 {
        vstd::arithmetic::div_mod::lemma_div_multiples_vanish_quotient(w, sum, 2);
        assert(w * sum >= 0) by (nonlinear_arith)
            requires
                0 < w,
                0 <= sum,
        ;
    } else {
        vstd::arithmetic::div_mod::lemma_div_multiples_vanish_quotient(w, -sum, 2);
        assert(-(w * sum) == w * (-sum)) by (nonlinear_arith);
        assert(w * sum < 0) by (nonlinear_arith)
            requires
                0 < w,
                sum < 0,
        ;
    }
}

/// When every observation is at -100 dBm or weaker, the total weight is
/// zero and the weighted centroid falls back to the plain arithmetic
/// mean of the coordinates.
pub proof fn lemma_weighted_centroid_zero_weight(s: Seq<Observation>)
    requires
        s.len() > 0,
        forall|i: int| 0 <= i < s.len() ==> (#[trigger] s[i]).signal_strength as int <= -100,
    ensures
        sum_weights(s) == 0,
        weighted_centroid_spec(s) == Option::Some(
            Position {
                lat_e7: div_trunc(sum_lat(s), s.len() as int) as i64,
                lon_e7: div_trunc(sum_lon(s), s.len() as int) as i64,
                timestamp: s[0].position.timestamp,
            },
        ),
{
    lemma_sum_weights_zero(s);
}

proof fn lemma_sum_weights_zero(s: Seq<Observation>)
    requires
        forall|i: int| 0 <= i < s.len() ==> (#[trigger] s[i]).signal_strength as int <= -100,
    ensures
        sum_weights(s) == 0,
    decreases s.len(),
{
    if s.len() > 0 {
        assert(s.last() == s[s.len() - 1]);
        lemma_sum_weights_zero(s.drop_last());
    }
}

/// Sorted in order of descending signal strength (strongest first).
pub open spec fn sorted_by_signal_desc(s: Seq<Observation>) -> bool {
    forall|i: int, j: int|
        0 <= i < j < s.len() ==> (#[trigger] s[i]).signal_strength >= (#[trigger] s[j]).signal_strength
}

/// Sorts the observations by descending signal strength (strongest
/// first). The result is a permutation of the input: the same multiset
/// of observations.
pub fn sort_observations_by_signal(observations: &mut Vec<Observation>)
    ensures
        sorted_by_signal_desc(final(observations)@),
        final(observations)@.to_multiset() == old(observations)@.to_multiset(),
        final(observations)@.len() == old(observations)@.len(),
{
    broadcast use vstd::seq_lib::group_to_multiset_ensures;

    let mut result: Vec<Observation> = Vec::new();
    while observations.len() > 0
        invariant
            result@.to_multiset().add(observations@.to_multiset()) == old(
                observations,
            )@.to_multiset(),
            result@.len() + observations@.len() == old(observations)@.len(),
            sorted_by_signal_desc(result@),
            forall|a: int, b: int|
                0 <= a < result@.len() && 0 <= b < observations@.len() ==> (#[trigger] result@[a]).signal_strength
                    >= (#[trigger] observations@[b]).signal_strength,
        decreases observations@.len(),
    {
        let m = observations.len();
        let mut best: usize = 0;
        let mut k: usize = 1;
        while k < m
            invariant
                m == observations@.len(),
                0 < m,
                0 <= best < m,
                1 <= k <= m,
                forall|t: int| 0 <= t < k ==> (#[trigger] observations@[t]).signal_strength
                    <= observations@[best as int].signal_strength,
            decreases m - k,
        {
            if observations[k].signal_strength > observations[best].signal_strength {
                best = k;
            }
            k = k + 1;
        }
        let picked = observations.remove(best);
        proof {
            broadcast use vstd::seq_lib::group_to_multiset_ensures;

            let r = result@;
            let o = old(observations)@;
            assert(r.push(picked).to_multiset() =~= r.to_multiset().insert(picked));
            assert(r.push(picked).to_multiset().add(observations@.to_multiset()) =~= o.to_multiset());
        }
        result.push(picked);
    }
    proof {
        assert(result@.to_multiset().add(observations@.to_multiset()) =~= result@.to_multiset());
    }
    *observations = result;
}


/// The distance matrix as a sequence of rows.
pub open spec fn dist_rows(d: Seq<Vec<u64>>) -> Seq<Seq<u64>> {
    d.map_values(|row: Vec<u64>| row@)
}

/// Index `i` is at least `threshold` away from every index in `kept`.
pub open spec fn far_from_all(dm: Seq<Seq<u64>>, threshold: u64, kept: Seq<int>, i: int) -> bool {
    forall|k: int| 0 <= k < kept.len() ==> (#[trigger] dm[i][kept[k]]) >= threshold
}

/// Indices kept by the greedy spatial filter over the first `n`
/// observations (assumed sorted strongest-first): each index is kept
/// exactly when it is at least `threshold` away from every index kept
/// before it, so the first index is always kept.
pub open spec fn greedy_kept(dm: Seq<Seq<u64>>, threshold: u64, n: int) -> Seq<int>
    decreases n,
{
    if n <= 0 {
        Seq::<int>::empty()
    } else {
        let prev = greedy_kept(dm, threshold, n - 1);
        if far_from_all(dm, threshold, prev, n - 1) {
            prev.push(n - 1)
        } else {
            prev
        }
    }
}

/// The kept indices are within range, strictly increasing, start at 0
/// when any observation exists, and every later kept index is at least
/// `threshold` away from every earlier kept one.
pub proof fn lemma_greedy_kept_properties(dm: Seq<Seq<u64>>, threshold: u64, n: int)
    ensures
        forall|k: int| 0 <= k < greedy_kept(dm, threshold, n).len() ==> 0 <= #[trigger] greedy_kept(
            dm,
            threshold,
            n,
        )[k] < n,
        forall|a: int, b: int|
            0 <= a < b < greedy_kept(dm, threshold, n).len() ==> #[trigger] greedy_kept(
                dm,
                threshold,
                n,
            )[a] < #[trigger] greedy_kept(dm, threshold, n)[b],
        n > 0 ==> greedy_kept(dm, threshold, n).len() > 0 && greedy_kept(dm, threshold, n)[0] == 0,
        forall|a: int, b: int|
            0 <= a < b < greedy_kept(dm, threshold, n).len() ==> (#[trigger] dm[greedy_kept(
                dm,
                threshold,
                n,
            )[b]][greedy_kept(dm, threshold, n)[a]]) >= threshold,
    decreases n,
{
    if n > 0 {
        lemma_greedy_kept_properties(dm, threshold, n - 1);
        let prev = greedy_kept(dm, threshold, n - 1);
        let cur = greedy_kept(dm, threshold, n);
        if far_from_all(dm, threshold, prev, n - 1) {
            assert(cur == prev.push(n - 1));
            assert(forall|k: int| 0 <= k < prev.len() ==> 0 <= #[trigger] prev[k] < n - 1);
            assert forall|a: int, b: int| 0 <= a < b < cur.len() implies
                (#[trigger] dm[cur[b]][cur[a]]) >= threshold by {
                if b == cur.len() - 1 {
                    assert(cur[b] == n - 1);
                    assert(cur[a] == prev[a]);
                    assert(dm[n - 1][prev[a]] >= threshold);
                } else {
                    assert(cur[a] == prev[a] && cur[b] == prev[b]);
                }
            }
            if n == 1 {
                assert(cur[0] == 0);
            }
        } else {
            assert(cur == prev);
        }
    }
}

/// No two observations kept by the greedy filter lie closer together
/// than the threshold: for a symmetric distance matrix, any two distinct
/// kept indices are at least `threshold` apart in both orientations.
pub proof fn lemma_greedy_kept_separated(dm: Seq<Seq<u64>>, threshold: u64, n: int, a: int, b: int)
    requires
        forall|i: int, j: int| 0 <= i < n && 0 <= j < n ==> (#[trigger] dm[i][j]) == dm[j][i],
        0 <= a < greedy_kept(dm, threshold, n).len(),
        0 <= b < greedy_kept(dm, threshold, n).len(),
        a != b,
    ensures
        dm[greedy_kept(dm, threshold, n)[a]][greedy_kept(dm, threshold, n)[b]] >= threshold,
{
    lemma_greedy_kept_properties(dm, threshold, n);
}

/// Reduces a signal-sorted observation list to a sparse subset: walking
/// from the strongest signal down, an observation is kept only when it
/// lies at least `MIN_DISTANCE_BETWEEN_OBS_MM` from every observation
/// already kept. `dist_mm` must hold the pairwise distances between the
/// observations, in millimeters, indexed like `observations`.
pub fn filter_close_observations(observations: &mut Vec<Observation>, dist_mm: &Vec<Vec<u64>>)
    requires
        sorted_by_signal_desc(old(observations)@),
        dist_mm@.len() == old(observations)@.len(),
        forall|i: int| 0 <= i < dist_mm@.len() ==> (#[trigger] dist_mm@[i])@.len() == old(
            observations,
        )@.len(),
    ensures
        final(observations)@ == greedy_kept(
            dist_rows(dist_mm@),
            MIN_DISTANCE_BETWEEN_OBS_MM,
            old(observations)@.len() as int,
        ).map_values(|j: int| old(observations)@[j]),
{
    let ghost dm = dist_rows(dist_mm@);
    let ghost orig = observations@;
    let n = observations.len();
    if n <= 1 {
        proof {
            if n == 1 {
                assert(greedy_kept(dm, MIN_DISTANCE_BETWEEN_OBS_MM, 0) =~= Seq::<int>::empty());
                assert(greedy_kept(dm, MIN_DISTANCE_BETWEEN_OBS_MM, 1) =~= seq![0int]);
            }
            assert(observations@ =~= greedy_kept(dm, MIN_DISTANCE_BETWEEN_OBS_MM, n as int)
                .map_values(|j: int| orig[j]));
        }
        return;
    }
    let mut kept_idx: Vec<usize> = Vec::new();
    let mut filtered: Vec<Observation> = Vec::new();
    let mut i: usize = 0;
    while i < n
        invariant
            n == observations@.len(),
            observations@ == orig,
            dm == dist_rows(dist_mm@),
            dist_mm@.len() == n,
            forall|t: int| 0 <= t < dist_mm@.len() ==> (#[trigger] dist_mm@[t])@.len() == n,
            0 <= i <= n,
            kept_idx@.map_values(|u: usize| u as int) == greedy_kept(
                dm,
                MIN_DISTANCE_BETWEEN_OBS_MM,
                i as int,
            ),
            forall|t: int| 0 <= t < kept_idx@.len() ==> (#[trigger] kept_idx@[t]) < n,
            filtered@.len() == kept_idx@.len(),
            forall|t: int| 0 <= t < kept_idx@.len() ==> #[trigger] filtered@[t] == orig[kept_idx@[t] as int],
        decreases n - i,
    {
        let ghost kseq = kept_idx@.map_values(|u: usize| u as int);
        let mut ok = true;
        let mut k: usize = 0;
        while k < kept_idx.len() && ok
            invariant
                n == observations@.len(),
                dm == dist_rows(dist_mm@),
                dist_mm@.len() == n,
                forall|t: int| 0 <= t < dist_mm@.len() ==> (#[trigger] dist_mm@[t])@.len() == n,
                0 <= i < n,
                0 <= k <= kept_idx@.len(),
                kseq == kept_idx@.map_values(|u: usize| u as int),
                forall|t: int| 0 <= t < kept_idx@.len() ==> (#[trigger] kept_idx@[t]) < n,
                ok ==> forall|t: int| 0 <= t < k ==> (#[trigger] dm[i as int][kseq[t]])
                    >= MIN_DISTANCE_BETWEEN_OBS_MM,
                !ok ==> !far_from_all(dm, MIN_DISTANCE_BETWEEN_OBS_MM, kseq, i as int),
            decreases kept_idx@.len() - k,
        {
            let j = kept_idx[k];
            proof {
                assert(dm[i as int] == dist_mm@[i as int]@);
                assert(kseq[k as int] == j as int);
            }
            if dist_mm[i][j] < MIN_DISTANCE_BETWEEN_OBS_MM {
                proof {
                    assert(dm[i as int][kseq[k as int]] < MIN_DISTANCE_BETWEEN_OBS_MM);
                    assert(!far_from_all(dm, MIN_DISTANCE_BETWEEN_OBS_MM, kseq, i as int));
                }
                ok = false;
            } else {
                proof {
                    assert(dm[i as int][kseq[k as int]] >= MIN_DISTANCE_BETWEEN_OBS_MM);
                }
            }
            k = k + 1;
        }
        proof {
            if ok {
                assert(forall|t: int| 0 <= t < kseq.len() ==> (#[trigger] dm[i as int][kseq[t]])
                    >= MIN_DISTANCE_BETWEEN_OBS_MM);
                assert(far_from_all(dm, MIN_DISTANCE_BETWEEN_OBS_MM, kseq, i as int));
            }
        }
        if ok {
            kept_idx.push(i);
            filtered.push(observations[i]);
            proof {
                assert(kept_idx@.map_values(|u: usize| u as int) =~= kseq.push(i as int));
            }
        }
        i = i + 1;
    }
    proof {
        assert(filtered@ =~= greedy_kept(dm, MIN_DISTANCE_BETWEEN_OBS_MM, n as int)
            .map_values(|j: int| orig[j]));
    }
    *observations = filtered;
}


/// The number of days from the civil epoch 1970-01-01 to the given
/// proleptic Gregorian date: computed era by era (an era is 400 years,
/// 146097 days), counting the day of the era from a year that starts
/// in March so that the leap day falls last.
pub open spec fn days_from_civil(y: int, m: int, d: int) -> int {
    let yy = if m <= 2 {
        y - 1
    } else {
        y
    };
    let era = yy / 400;
    let yoe = yy - era * 400;
    let mp = if m > 2 {
        m - 3
    } else {
        m + 9
    };
    let doy = (153 * mp + 2) / 5 + d - 1;
    let doe = yoe * 365 + yoe / 4 - yoe / 100 + doy;
    era * 146097 + doe - 719468
}

/// The Unix timestamp of a civil date and UTC time of day.
pub open spec fn epoch_timestamp_spec(y: int, m: int, d: int, h: int, min: int, s: int) -> int {
    days_from_civil(y, m, d) * 86400 + h * 3600 + min * 60 + s
}

/// Seconds since the Unix epoch for a civil date and UTC time of day
/// (proleptic Gregorian calendar).
pub fn epoch_timestamp(year: u16, month: u8, day: u8, hour: u8, minute: u8, second: u8) -> (r: i64)
    requires
        1 <= year <= 9999,
        1 <= month <= 12,
        1 <= day <= 31,
        hour < 24,
        minute < 60,
        second < 60,
    ensures
        r as int == epoch_timestamp_spec(
            year as int,
            month as int,
            day as int,
            hour as int,
            minute as int,
            second as int,
        ),
{
    let yy: u64 = if month <= 2 {
        (year - 1) as u64
    } else {
        year as u64
    };
    let era: u64 = yy / 400;
    let yoe: u64 = yy - era * 400;
    let mp: u64 = if month > 2 {
        (month - 3) as u64
    } else {
        (month + 9) as u64
    };
    let doy: u64 = (153 * mp + 2) / 5 + (day - 1) as u64;
    let doe: u64 = yoe * 365 + yoe / 4 - yoe / 100 + doy;
    let days: i64 = (era as i64) * 146097 + (doe as i64) - 719468;
    days * 86400 + (hour as i64) * 3600 + (minute as i64) * 60 + (second as i64)
}

/// Sorted in order of ascending timestamp.
pub open spec fn sorted_by_timestamp(s: Seq<Position>) -> bool {
    forall|i: int, j: int|
        0 <= i < j < s.len() ==> (#[trigger] s[i]).timestamp <= (#[trigger] s[j]).timestamp
}

/// Sorts the track's fixes by ascending timestamp, as interpolation
/// expects. The result is a permutation of the input (same multiset of
/// fixes).
pub fn sort_positions_by_timestamp(positions: &mut Vec<Position>)
    ensures
        sorted_by_timestamp(final(positions)@),
        final(positions)@.to_multiset() == old(positions)@.to_multiset(),
        final(positions)@.len() == old(positions)@.len(),
{
    broadcast use vstd::seq_lib::group_to_multiset_ensures;

    let mut result: Vec<Position> = Vec::new();
    while positions.len() > 0
        invariant
            result@.to_multiset().add(positions@.to_multiset()) == old(positions)@.to_multiset(),
            result@.len() + positions@.len() == old(positions)@.len(),
            sorted_by_timestamp(result@),
            forall|a: int, b: int|
                0 <= a < result@.len() && 0 <= b < positions@.len() ==> (#[trigger] result@[a]).timestamp
                    <= (#[trigger] positions@[b]).timestamp,
        decreases positions@.len(),
    {
        let m = positions.len();
        let mut best: usize = 0;
        let mut k: usize = 1;
        while k < m
            invariant
                m == positions@.len(),
                0 < m,
                0 <= best < m,
                1 <= k <= m,
                forall|t: int| 0 <= t < k ==> (#[trigger] positions@[t]).timestamp
                    >= positions@[best as int].timestamp,
            decreases m - k,
        {
            if positions[k].timestamp < positions[best].timestamp {
                best = k;
            }
            k = k + 1;
        }
        let picked = positions.remove(best);
        proof {
            broadcast use vstd::seq_lib::group_to_multiset_ensures;

            let r = result@;
            let o = old(positions)@;
            assert(r.push(picked).to_multiset() =~= r.to_multiset().insert(picked));
            assert(r.push(picked).to_multiset().add(positions@.to_multiset()) =~= o.to_multiset());
        }
        result.push(picked);
    }
    proof {
        assert(result@.to_multiset().add(positions@.to_multiset()) =~= result@.to_multiset());
    }
    *positions = result;
}


/// The weakest and strongest signal strength among the observations,
/// in that order; `None` only for an empty list. Both bounds are
/// attained by some observation.
pub fn signal_extremes(observations: &Vec<Observation>) -> (r: Option<(i8, i8)>)
    ensures
        r is None <==> observations@.len() == 0,
        r matches Some(p) ==> {
            &&& (exists|i: int|
                0 <= i < observations@.len() && (#[trigger] observations@[i]).signal_strength
                    == p.0)
            &&& (exists|i: int|
                0 <= i < observations@.len() && (#[trigger] observations@[i]).signal_strength
                    == p.1)
            &&& (forall|i: int|
                0 <= i < observations@.len() ==> p.0 <= (#[trigger] observations@[i]).signal_strength
                    <= p.1)
        },
{
    let n = observations.len();
    if n == 0 {
        return Option::None;
    }
    let mut lo: i8 = observations[0].signal_strength;
    let mut hi: i8 = observations[0].signal_strength;
    let mut i: usize = 1;
    while i < n
        invariant
            n == observations@.len(),
            1 <= i <= n,
            exists|k: int|
                0 <= k < i && (#[trigger] observations@[k]).signal_strength == lo,
            exists|k: int|
                0 <= k < i && (#[trigger] observations@[k]).signal_strength == hi,
            forall|k: int|
                0 <= k < i ==> lo <= (#[trigger] observations@[k]).signal_strength <= hi,
        decreases n - i,
    {
        let s = observations[i].signal_strength;
        if s < lo {
            lo = s;
        }
        if s > hi {
            hi = s;
        }
        proof {
            assert(observations@[i as int].signal_strength == s);
        }
        i = i + 1;
    }
    Option::Some((lo, hi))
}


/// For a positive divisor, a quotient whose dividend lies between
/// `b * lo` and `b * hi` lies between `lo` and `hi` after truncating
/// division.
proof fn lemma_div_trunc_bounds(a: int, b: int, lo: int, hi: int)
    requires
        0 < b,
        b * lo <= a <= b * hi,
    ensures
        lo <= div_trunc(a, b) <= hi,
{
    vstd::arithmetic::div_mod::lemma_div_multiples_vanish(lo, b);
    vstd::arithmetic::div_mod::lemma_div_multiples_vanish(hi, b);
    vstd::arithmetic::div_mod::lemma_div_multiples_vanish(-lo, b);
    vstd::arithmetic::div_mod::lemma_div_multiples_vanish(-hi, b);
    assert(b * (-lo) == -(b * lo) && b * (-hi) == -(b * hi)) by (nonlinear_arith);
    if a >= 0 {
        if hi >= 0 {
            vstd::arithmetic::div_mod::lemma_div_is_ordered(a, b * hi, b);
        }
        if lo > 0 {
            vstd::arithmetic::div_mod::lemma_div_is_ordered(b * lo, a, b);
        } else {
            vstd::arithmetic::div_mod::lemma_div_pos_is_pos(a, b);
        }
        assert(b * hi >= 0 ==> hi >= 0) by (nonlinear_arith)
            requires
                0 < b,
        ;
    } else {
        if lo <= 0 {
            vstd::arithmetic::div_mod::lemma_div_is_ordered(-a, b * (-lo), b);
        }
        if hi < 0 {
            vstd::arithmetic::div_mod::lemma_div_is_ordered(b * (-hi), -a, b);
        } else {
            vstd::arithmetic::div_mod::lemma_div_pos_is_pos(-a, b);
        }
        assert(b * lo <= 0 ==> lo <= 0) by (nonlinear_arith)
            requires
                0 < b,
        ;
    }
}

proof fn lemma_weighted_sums_bounded(s: Seq<Observation>, lo: int, hi: int, go: int, gi: int)
    requires
        forall|i: int|
            0 <= i < s.len() ==> lo <= (#[trigger] s[i]).position.lat_e7 <= hi && go
                <= s[i].position.lon_e7 <= gi,
    ensures
        sum_weights(s) >= 0,
        sum_weights(s) * lo <= sum_weighted_lat(s) <= sum_weights(s) * hi,
        sum_weights(s) * go <= sum_weighted_lon(s) <= sum_weights(s) * gi,
        s.len() * lo <= sum_lat(s) <= s.len() * hi,
        s.len() * go <= sum_lon(s) <= s.len() * gi,
    decreases s.len(),
{
    if s.len() == 0 {
        assert(sum_weights(s) * lo == 0 && sum_weights(s) * hi == 0 && sum_weights(s) * go == 0
            && sum_weights(s) * gi == 0) by (nonlinear_arith)
            requires
                sum_weights(s) == 0,
        ;
    } else {
        let p = s.drop_last();
        lemma_weighted_sums_bounded(p, lo, hi, go, gi);
        assert(s.last() == s[s.len() - 1]);
        let w = signal_weight(s.last().signal_strength as int);
        lemma_signal_weight_range(s.last().signal_strength as int);
        let la = s.last().position.lat_e7 as int;
        let lg = s.last().position.lon_e7 as int;
        assert(w * lo <= w * la <= w * hi && w * go <= w * lg <= w * gi) by (nonlinear_arith)
            requires
                0 <= w,
                lo <= la <= hi,
                go <= lg <= gi,
        ;
        let pw = sum_weights(p);
        assert((pw + w) * lo == pw * lo + w * lo && (pw + w) * hi == pw * hi + w * hi && (pw + w)
            * go == pw * go + w * go && (pw + w) * gi == pw * gi + w * gi) by (nonlinear_arith);
        let n = p.len() as int;
        assert((n + 1) * lo == n * lo + lo && (n + 1) * hi == n * hi + hi && (n + 1) * go == n * go
            + go && (n + 1) * gi == n * gi + gi) by (nonlinear_arith);
    }
}

/// The weighted centroid never leaves the observations' bounding box:
/// its coordinates lie between the smallest and largest observed
/// latitude and longitude (for in-range bounds, so the fixed-point
/// coordinates cannot wrap).
pub proof fn lemma_weighted_centroid_in_bounding_box(
    s: Seq<Observation>,
    lat_lo: int,
    lat_hi: int,
    lon_lo: int,
    lon_hi: int,
)
    requires
        s.len() > 0,
        -900_000_000 <= lat_lo <= lat_hi <= 900_000_000,
        -1_800_000_000 <= lon_lo <= lon_hi <= 1_800_000_000,
        forall|i: int|
            0 <= i < s.len() ==> lat_lo <= (#[trigger] s[i]).position.lat_e7 <= lat_hi && lon_lo
                <= s[i].position.lon_e7 <= lon_hi,
    ensures
        weighted_centroid_spec(s) matches Some(c) && lat_lo <= c.lat_e7 <= lat_hi && lon_lo
            <= c.lon_e7 <= lon_hi,
{
    lemma_weighted_sums_bounded(s, lat_lo, lat_hi, lon_lo, lon_hi);
    let w = sum_weights(s);
    if w == 0 {
        lemma_div_trunc_bounds(sum_lat(s), s.len() as int, lat_lo, lat_hi);
        lemma_div_trunc_bounds(sum_lon(s), s.len() as int, lon_lo, lon_hi);
    } else {
        lemma_div_trunc_bounds(sum_weighted_lat(s), w, lat_lo, lat_hi);
        lemma_div_trunc_bounds(sum_weighted_lon(s), w, lon_lo, lon_hi);
    }
}

} // verus!
