//! The widening search for the nearest record.
//!
//! A search looks at the records inside a square window around the query
//! point. While the window holds no record its half-width is multiplied by
//! `WIDENING_FACTOR`, and the search gives up once the half-width would pass
//! `MAX_HALF_WIDTH`. The caller fetches the records of each window and
//! measures them; what to do next is decided here.

use vstd::prelude::*;
use vstd::arithmetic::power::{pow, lemma_pow0};
use crate::nearest::{Candidate, CandidateView, candidates_of, nearest, nearest_of};

verus! {

/// Half-width of the first window: 0.0001 degree.
pub const INITIAL_HALF_WIDTH: i64 = 10_000;

/// The largest half-width a window may have: 0.1 degree.
pub const MAX_HALF_WIDTH: i64 = 10_000_000;

/// By how much the half-width grows after an empty window.
pub const WIDENING_FACTOR: i64 = 2;

/// The half-width of the window after it has been widened `k` times.
pub open spec fn width_after(k: nat) -> int
    decreases k,
{
    if k == 0 {
        INITIAL_HALF_WIDTH as int
    } else {
        WIDENING_FACTOR * width_after((k - 1) as nat)
    }
}

/// The nearest value to `v` that an `i64` can hold.
pub open spec fn clamp(v: int) -> int {
    if v < i64::MIN {
        i64::MIN as int
    } else if v > i64::MAX {
        i64::MAX as int
    } else {
        v
    }
}

/// A window of coordinates, both ends of each range included.
#[derive(Clone, Copy, Debug, PartialEq, Eq, Structural)]
pub struct BoundingBox {
    pub min_latitude: i64,
    pub max_latitude: i64,
    pub min_longitude: i64,
    pub max_longitude: i64,
}

impl BoundingBox {
    /// The point lies in the window.
    pub open spec fn holds(self, latitude: int, longitude: int) -> bool {
        &&& self.min_latitude <= latitude <= self.max_latitude
        &&& self.min_longitude <= longitude <= self.max_longitude
    }

    /// The window that reaches `half_width` to each side of a point, cut
    /// off at the ends of the `i64` range.
    pub open spec fn spec_around(latitude: int, longitude: int, half_width: int) -> BoundingBox {
        BoundingBox {
            min_latitude: clamp(latitude - half_width) as i64,
            max_latitude: clamp(latitude + half_width) as i64,
            min_longitude: clamp(longitude - half_width) as i64,
            max_longitude: clamp(longitude + half_width) as i64,
        }
    }

    /// The window that reaches `half_width` to each side of a point. It
    /// holds exactly the coordinates no further than `half_width` from the
    /// point on either axis.
    pub fn around(latitude: i64, longitude: i64, half_width: i64) -> (b: BoundingBox)
        ensures
            b == Self::spec_around(latitude as int, longitude as int, half_width as int),
            forall|x: i64, y: i64| #[trigger]
                b.holds(x as int, y as int) <==> {
                    &&& latitude - half_width <= x <= latitude + half_width
                    &&& longitude - half_width <= y <= longitude + half_width
                },
    {
        BoundingBox {
            min_latitude: saturate(latitude as i128 - half_width as i128),
            max_latitude: saturate(latitude as i128 + half_width as i128),
            min_longitude: saturate(longitude as i128 - half_width as i128),
            max_longitude: saturate(longitude as i128 + half_width as i128),
        }
    }

    /// Whether the point lies in the window.
    pub fn contains(&self, latitude: i64, longitude: i64) -> (r: bool)
        ensures
            r == self.holds(latitude as int, longitude as int),
    {
        self.min_latitude <= latitude && latitude <= self.max_latitude && self.min_longitude
            <= longitude && longitude <= self.max_longitude
    }
}

/// Brings a sum or difference of two coordinates back into `i64`.
fn saturate(v: i128) -> (r: i64)
    ensures
        r == clamp(v as int),
{
    if v < i64::MIN as i128 {
        i64::MIN
    } else if v > i64::MAX as i128 {
        i64::MAX
    } else {
        v as i64
    }
}

/// A search in progress: the query point and how often the window has been
/// widened.
#[derive(Debug)]
pub struct Search {
    latitude: i64,
    longitude: i64,
    half_width: i64,
    widenings: u32,
}

/// A search as plain values.
pub struct SearchView {
    pub latitude: int,
    pub longitude: int,
    pub widenings: nat,
}

impl View for Search {
    type V = SearchView;

    closed spec fn view(&self) -> SearchView {
        SearchView {
            latitude: self.latitude as int,
            longitude: self.longitude as int,
            widenings: self.widenings as nat,
        }
    }
}

impl SearchView {
    /// The half-width of the window this search looks at.
    pub open spec fn half_width(self) -> int {
        width_after(self.widenings)
    }

    /// The window this search looks at.
    pub open spec fn window(self) -> BoundingBox {
        BoundingBox::spec_around(self.latitude, self.longitude, self.half_width())
    }

    /// The search after one more widening.
    pub open spec fn widened(self) -> SearchView {
        SearchView { widenings: self.widenings + 1, ..self }
    }
}

/// What a search does once the records of its window are known.
#[derive(Debug)]
pub enum Step {
    /// The window was empty: look again with this wider search.
    Widen(Search),
    /// The nearest record is the candidate at this position.
    Found(usize),
    /// The window was empty and may not grow further: there is no result.
    NoResult,
}

/// A step as plain values.
pub enum StepView {
    Widen(SearchView),
    Found(nat),
    NoResult,
}

impl View for Step {
    type V = StepView;

    open spec fn view(&self) -> StepView {
        match self {
            Step::Widen(next) => StepView::Widen(next@),
            Step::Found(at) => StepView::Found(*at as nat),
            Step::NoResult => StepView::NoResult,
        }
    }
}

/// The step that follows from a search and the candidates of its window.
pub open spec fn step_of(search: SearchView, candidates: Seq<CandidateView>) -> StepView {
    match nearest_of(candidates) {
        Some(at) => StepView::Found(at),
        None => if search.widened().half_width() > MAX_HALF_WIDTH {
            StepView::NoResult
        } else {
            StepView::Widen(search.widened())
        },
    }
}

impl Search {
    #[verifier::type_invariant]
    spec fn well_formed(self) -> bool {
        &&& self.half_width == width_after(self.widenings as nat)
        &&& self.half_width <= MAX_HALF_WIDTH
    }

    /// Starts a search around a point, with the window not yet widened.
    pub fn begin(latitude: i64, longitude: i64) -> (s: Search)
        ensures
            s@ == (SearchView { latitude: latitude as int, longitude: longitude as int, widenings: 0 }),
    {
        Search { latitude, longitude, half_width: INITIAL_HALF_WIDTH, widenings: 0 }
    }

    /// The half-width of the window this search looks at. It never exceeds
    /// `MAX_HALF_WIDTH`.
    pub fn half_width(&self) -> (w: i64)
        ensures
            w == self@.half_width(),
            INITIAL_HALF_WIDTH <= w <= MAX_HALF_WIDTH,
    {
        proof {
            use_type_invariant(self);
            lemma_width_grows(0, self.widenings as nat);
        }
        self.half_width
    }

    /// How often the window has been widened.
    pub fn widenings(&self) -> (k: u32)
        ensures
            k == self@.widenings,
    {
        self.widenings
    }

    /// The window whose records the caller is to fetch.
    pub fn window(&self) -> (b: BoundingBox)
        ensures
            b == self@.window(),
            self@.half_width() <= MAX_HALF_WIDTH,
    {
        let half_width = self.half_width();
        BoundingBox::around(self.latitude, self.longitude, half_width)
    }

    /// Decides what follows once the records of the window are known.
    ///
    /// With candidates the search ends at the nearest of them. Without, the
    /// window is widened, unless the wider window would pass
    /// `MAX_HALF_WIDTH`: then the search ends without a result.
    pub fn advance(self, candidates: &Vec<Candidate>) -> (step: Step)
        ensures
            step@ == step_of(self@, candidates_of(candidates@)),
    {
        proof {
            use_type_invariant(&self);
            lemma_width_grows(0, self.widenings as nat);
        }
        match nearest(candidates) {
            Some(at) => Step::Found(at),
            None => {
                if self.half_width > MAX_HALF_WIDTH / WIDENING_FACTOR {
                    Step::NoResult
                } else {
                    proof {
                        lemma_widenings_bounded(self.widenings as nat);
                    }
                    Step::Widen(
                        Search {
                            latitude: self.latitude,
                            longitude: self.longitude,
                            half_width: self.half_width * WIDENING_FACTOR,
                            widenings: self.widenings + 1,
                        },
                    )
                }
            },
        }
    }
}

/// The half-width after `k` widenings is the initial half-width times the
/// `k`-th power of the widening factor.
pub proof fn lemma_width_is_power(k: nat)
    ensures
        width_after(k) == INITIAL_HALF_WIDTH * pow(WIDENING_FACTOR as int, k),
    decreases k,
{
    reveal(pow);
    if k > 0 {
        lemma_width_is_power((k - 1) as nat);
        assert(INITIAL_HALF_WIDTH * (WIDENING_FACTOR * pow(WIDENING_FACTOR as int, (k - 1) as nat))
            == WIDENING_FACTOR * (INITIAL_HALF_WIDTH * pow(
            WIDENING_FACTOR as int,
            (k - 1) as nat,
        ))) by (nonlinear_arith);
    } else {
        lemma_pow0(WIDENING_FACTOR as int);
    }
}

/// Widening never narrows the window: more widenings give a half-width at
/// least as large, and a strictly larger one for strictly more widenings.
pub proof fn lemma_width_grows(j: nat, k: nat)
    requires
        j <= k,
    ensures
        0 < width_after(j) <= width_after(k),
        j < k ==> width_after(j) < width_after(k),
    decreases k,
{
    if j < k {
        lemma_width_grows(j, (k - 1) as nat);
    } else if k > 0 {
        lemma_width_grows((k - 1) as nat, (k - 1) as nat);
    }
}

/// A half-width within the limit has been widened at most nine times.
pub proof fn lemma_widenings_bounded(k: nat)
    requires
        width_after(k) <= MAX_HALF_WIDTH,
    ensures
        k <= 9,
{
    if k > 9 {
        reveal_with_fuel(width_after, 11);
        lemma_width_grows(10, k);
    }
}

} // verus!
