use vstd::prelude::*;

pub mod cli;
pub mod geo;
pub mod hashcat;
pub mod mac;
pub mod packets;
pub mod text;

use crate::geo::{weighted_centroid, weighted_centroid_spec, Observation, Position};
use crate::packets::WifiSecurity;

verus! {

/// How an access point's position estimate was produced.
#[derive(Clone, Copy, Debug, PartialEq, Eq, Structural)]
pub enum PositionMethod {
    Single,
    WeightedCentroid,
    Trilateration,
}

impl PositionMethod {
    /// The display name of the method.
    pub fn label(&self) -> (r: String)
        ensures
            r@ == self.label_spec(),
    {
        match self {
            PositionMethod::Single => "single".to_owned(),
            PositionMethod::WeightedCentroid => "weighted_centroid".to_owned(),
            PositionMethod::Trilateration => "trilateration".to_owned(),
        }
    }

    pub open spec fn label_spec(self) -> Seq<char> {
        match self {
            PositionMethod::Single => "single"@,
            PositionMethod::WeightedCentroid => "weighted_centroid"@,
            PositionMethod::Trilateration => "trilateration"@,
        }
    }
}

/// One access point reconstructed from a capture run, keyed by its MAC
/// address, with every correlated observation and the estimate derived
/// from them.
#[derive(Debug, Clone)]
pub struct AccessPoint {
    pub mac: [u8; 6],
    pub ssid: Option<String>,
    pub observations: Vec<Observation>,
    pub estimated_position: Option<Position>,
    pub position_method: Option<PositionMethod>,
    pub security: Option<WifiSecurity>,
    pub channel: Option<u8>,
    pub vendor: Option<String>,
    pub password: Option<String>,
}

/// The abstract value of an `AccessPoint`.
pub ghost struct ApModel {
    pub mac: Seq<u8>,
    pub ssid: Option<Seq<char>>,
    pub observations: Seq<Observation>,
    pub estimated_position: Option<Position>,
    pub position_method: Option<PositionMethod>,
    pub security: Option<WifiSecurity>,
    pub channel: Option<u8>,
    pub vendor: Option<Seq<char>>,
    pub password: Option<Seq<char>>,
}

pub open spec fn view_opt_string(s: Option<String>) -> Option<Seq<char>> {
    match s {
        Option::Some(v) => Option::Some(v@),
        Option::None => Option::None,
    }
}

impl View for AccessPoint {
    type V = ApModel;

    open spec fn view(&self) -> ApModel {
        ApModel {
            mac: self.mac@,
            ssid: view_opt_string(self.ssid),
            observations: self.observations@,
            estimated_position: self.estimated_position,
            position_method: self.position_method,
            security: self.security,
            channel: self.channel,
            vendor: view_opt_string(self.vendor),
            password: view_opt_string(self.password),
        }
    }
}

/// `current.or(candidate)`: an already-set optional value is never
/// overwritten, an unset one takes the candidate.
pub open spec fn merge_optional_spec<T>(current: Option<T>, candidate: Option<T>) -> Option<T> {
    if current is Some {
        current
    } else {
        candidate
    }
}

/// Fills an optional field: keeps `current` when it is set, otherwise
/// takes `candidate`.
pub fn merge_optional<T>(current: Option<T>, candidate: Option<T>) -> (r: Option<T>)
    ensures
        r == merge_optional_spec(current, candidate),
{
    match current {
        Option::Some(v) => Option::Some(v),
        Option::None => candidate,
    }
}

/// Selects and runs the position estimator for an observation list:
/// no estimate without observations; the lone observation's position,
/// verbatim, for one; the weighted centroid for two. For three or more
/// the method is trilateration, and the returned position is the
/// weighted centroid that the iterative refinement starts from (the
/// gradient-descent refinement is floating-point work that lives with
/// the caller).
pub fn estimate_position(observations: &Vec<Observation>) -> (r: Option<(Position, PositionMethod)>)
    requires
        forall|i: int| 0 <= i < observations@.len() ==> (#[trigger] observations@[i]).wf(),
    ensures
        observations@.len() == 0 ==> r is None,
        observations@.len() == 1 ==> r == Option::Some(
            (observations@[0].position, PositionMethod::Single),
        ),
        observations@.len() == 2 ==> (weighted_centroid_spec(observations@) matches Some(c) && r
            == Option::Some((c, PositionMethod::WeightedCentroid))),
        observations@.len() >= 3 ==> (weighted_centroid_spec(observations@) matches Some(c) && r
            == Option::Some((c, PositionMethod::Trilateration))),
{
    let n = observations.len();
    if n == 0 {
        Option::None
    } else if n == 1 {
        Option::Some((observations[0].position, PositionMethod::Single))
    } else {
        let method = if n == 2 {
            PositionMethod::WeightedCentroid
        } else {
            PositionMethod::Trilateration
        };
        match weighted_centroid(observations) {
            Option::Some(c) => Option::Some((c, method)),
            Option::None => {
                proof {
                    assert(false);
                }
                Option::None
            },
        }
    }
}

/// How many access points have exactly `k` observations.
pub open spec fn count_with_obs(s: Seq<AccessPoint>, k: int) -> int
    decreases s.len(),
{
    if s.len() == 0 {
        0
    } else {
        count_with_obs(s.drop_last(), k) + if s.last().observations@.len() == k {
            1int
        } else {
            0int
        }
    }
}

/// Counts how many access points have exactly one observation, exactly
/// two, and anything else (none, or enough for trilateration).
pub fn observation_count_stats(access_points: &Vec<AccessPoint>) -> (r: (usize, usize, usize))
    ensures
        r.0 == count_with_obs(access_points@, 1),
        r.1 == count_with_obs(access_points@, 2),
        r.0 + r.1 + r.2 == access_points@.len(),
{
    let n = access_points.len();
    let mut c1: usize = 0;
    let mut c2: usize = 0;
    let mut i: usize = 0;
    while i < n
        invariant
            n == access_points@.len(),
            0 <= i <= n,
            c1 == count_with_obs(access_points@.take(i as int), 1),
            c2 == count_with_obs(access_points@.take(i as int), 2),
            c1 + c2 <= i,
        decreases n - i,
    {
        proof {
            let s = access_points@;
            assert(s.take(i as int + 1).drop_last() =~= s.take(i as int));
            assert(s.take(i as int + 1).last() == s[i as int]);
        }
        let m = access_points[i].observations.len();
        if m == 1 {
            c1 = c1 + 1;
        } else if m == 2 {
            c2 = c2 + 1;
        }
        i = i + 1;
    }
    proof {
        assert(access_points@.take(n as int) =~= access_points@);
    }
    (c1, c2, n - c1 - c2)
}

} // verus!
