//! The price catalog's structure: which dated rate applies to a model at a
//! moment, whether a catalog is consistent, and which token counts a rate
//! point leaves unpriced. The rates themselves are decimal amounts kept by
//! the caller beside each point.
use vstd::prelude::*;

use crate::analysis::Usage;
use crate::keyed::{find_text_key, first_key, lemma_first_key_bounds, lookup, text_keys};
use crate::project::contains_text;
use crate::sort::views;

verus! {

/// Nanoseconds in one day.
pub const NANOS_PER_DAY: u128 = 86_400_000_000_000;

/// One dated entry of a model's price history, as the pricing rules read it:
/// the day it takes effect (days since 1970-01-01), whether any of its
/// published rates is below zero, and which of its four rates are published.
#[derive(Clone, Copy, Debug, PartialEq, Eq, Structural)]
pub struct RatePoint {
    pub effective_day: i64,
    pub negative: bool,
    pub input: bool,
    pub cached_input: bool,
    pub cache_write_input: bool,
    pub output: bool,
}

/// The day (counted from 1970-01-01, UTC) on which an instant given in
/// nanoseconds since the epoch falls.
pub fn day_of(nanos: i128) -> (d: i128)
    ensures
        d * NANOS_PER_DAY <= nanos < (d + 1) * NANOS_PER_DAY,
        d == (nanos as int) / (NANOS_PER_DAY as int),
{
    let d = floor_day(nanos);
    proof {
        vstd::arithmetic::div_mod::lemma_fundamental_div_mod_converse_div(
            nanos as int,
            NANOS_PER_DAY as int,
            d as int,
            nanos - d * NANOS_PER_DAY,
        );
    }
    d
}

fn floor_day(nanos: i128) -> (d: i128)
    ensures
        d * NANOS_PER_DAY <= nanos < (d + 1) * NANOS_PER_DAY,
{
    let per_day: u128 = 86_400_000_000_000;
    if nanos >= 0 {
        let n: u128 = nanos as u128;
        let q: u128 = n / per_day;
        assert(q * per_day <= n < (q + 1) * per_day) by (nonlinear_arith)
            requires
                per_day > 0,
                q == n / per_day,
        ;
        assert(q <= n);
        q as i128
    } else {
        let m: u128 = (-(nanos + 1)) as u128;
        let q: u128 = m / per_day;
        assert(q * per_day <= m < (q + 1) * per_day) by (nonlinear_arith)
            requires
                per_day > 0,
                q == m / per_day,
        ;
        assert(q <= m);
        let d: i128 = -(q as i128) - 1;
        assert(d * per_day == -(q * per_day) - per_day) by (nonlinear_arith)
            requires
                d == -q - 1,
        ;
        assert((d + 1) * per_day == -(q * per_day)) by (nonlinear_arith)
            requires
                d == -q - 1,
        ;
        d
    }
}

/// The input tokens that were neither read from nor written to the cache:
/// the input less both cache counts, never below zero.
pub open spec fn uncached_input_spec(u: Usage) -> int {
    if u.cached_input + u.cache_write_input < u.input {
        u.input - (u.cached_input + u.cache_write_input)
    } else {
        0
    }
}

/// `input - (cached_input + cache_write_input)`, each step saturating.
pub fn uncached_input(u: &Usage) -> (r: u64)
    ensures
        r == uncached_input_spec(*u),
{
    let cache = u.cached_input.saturating_add(u.cache_write_input);
    u.input.saturating_sub(cache)
}

/// Every token count that is not zero has a published rate at `p`.
pub open spec fn prices_all(p: RatePoint, u: Usage) -> bool {
    &&& (p.input || uncached_input_spec(u) == 0)
    &&& (p.cached_input || u.cached_input == 0)
    &&& (p.cache_write_input || u.cache_write_input == 0)
    &&& (p.output || u.output == 0)
}

/// Whether the rates published at `p` price every token of `u`.
pub fn is_completely_priced(p: &RatePoint, u: &Usage) -> (r: bool)
    ensures
        r == prices_all(*p, *u),
{
    let uncached = uncached_input(u);
    (p.input || uncached == 0) && (p.cached_input || u.cached_input == 0) && (p.cache_write_input
        || u.cache_write_input == 0) && (p.output || u.output == 0)
}

/// The last point of a history that took effect on or before `day`.
pub open spec fn last_on_or_before(points: Seq<RatePoint>, day: int) -> Option<int>
    decreases points.len(),
{
    if points.len() == 0 {
        None
    } else if points.last().effective_day <= day {
        Some(points.len() - 1)
    } else {
        last_on_or_before(points.drop_last(), day)
    }
}

/// The point of a history that prices a moment: the newest one when the
/// moment is unknown or the model is an undated proxy, else the last one in
/// effect on that day.
pub open spec fn selected_point(points: Seq<RatePoint>, day: Option<int>, undated: bool) -> Option<int> {
    match day {
        Some(d) if !undated => last_on_or_before(points, d),
        _ => if points.len() > 0 {
            Some(points.len() - 1)
        } else {
            None
        },
    }
}

proof fn lemma_last_on_or_before_bounds(points: Seq<RatePoint>, day: int)
    ensures
        last_on_or_before(points, day) matches Some(j) ==> 0 <= j < points.len()
            && points[j].effective_day <= day,
    decreases points.len(),
{
    if points.len() > 0 && points.last().effective_day > day {
        lemma_last_on_or_before_bounds(points.drop_last(), day);
    }
}

/// The point chosen for a day is in effect on that day and every later
/// point of the history takes effect after it; when none is chosen, no
/// point had taken effect by then. In a history whose days increase, the
/// chosen point is therefore the one whose period contains the day.
pub proof fn lemma_point_in_effect(points: Seq<RatePoint>, day: int)
    ensures
        match last_on_or_before(points, day) {
            Some(j) => {
                &&& 0 <= j < points.len()
                &&& points[j].effective_day <= day
                &&& forall|k: int| j < k < points.len() ==> day < #[trigger] points[k].effective_day
            },
            None => forall|k: int| 0 <= k < points.len() ==> day < #[trigger] points[k].effective_day,
        },
        history_valid(points) ==> (last_on_or_before(points, day) matches Some(j) ==> forall|k: int|
            0 <= k < j ==> #[trigger] points[k].effective_day < points[j].effective_day),
    decreases points.len(),
{
    if points.len() > 0 {
        let rest = points.drop_last();
        lemma_point_in_effect(rest, day);
        assert forall|k: int| 0 <= k < rest.len() implies #[trigger] rest[k] == points[k] by {}
        if points.last().effective_day > day {
            match last_on_or_before(rest, day) {
                Some(j) => {
                    assert forall|k: int| j < k < points.len() implies day < #[trigger] points[k].effective_day by {
                        if k < rest.len() {
                            assert(rest[k] == points[k]);
                        }
                    }
                },
                None => {
                    assert forall|k: int| 0 <= k < points.len() implies day < #[trigger] points[k].effective_day by {
                        if k < rest.len() {
                            assert(rest[k] == points[k]);
                        }
                    }
                },
            }
        }
        if history_valid(points) {
            assert forall|a: int, b: int| 0 <= a < b < points.len() implies #[trigger] points[a].effective_day
                < #[trigger] points[b].effective_day by {
                lemma_increasing(points, a, b);
            }
        }
    }
}

proof fn lemma_increasing(points: Seq<RatePoint>, a: int, b: int)
    requires
        history_valid(points),
        0 <= a < b < points.len(),
    ensures
        points[a].effective_day < points[b].effective_day,
    decreases b - a,
{
    assert(!point_bad(points, b));
    if a + 1 < b {
        lemma_increasing(points, a, b - 1);
    }
}

/// The position of the last point in effect on `day`.
fn last_point_on_or_before(points: &Vec<RatePoint>, day: i128) -> (r: Option<usize>)
    ensures
        r matches Some(j) ==> j < points.len(),
        r == (match last_on_or_before(points@, day as int) {
            Some(j) => Some(j as usize),
            None => None::<usize>,
        }),
{
    let mut i: usize = points.len();
    assert(points@.take(i as int) =~= points@);
    while i > 0
        invariant
            i <= points.len(),
            last_on_or_before(points@, day as int) == last_on_or_before(points@.take(i as int), day as int),
        decreases i,
    {
        let ghost t = points@.take(i as int);
        assert(t.last() == points@[i - 1]);
        if (points[i - 1].effective_day as i128) <= day {
            return Some(i - 1);
        }
        assert(t.drop_last() =~= points@.take(i - 1));
        i -= 1;
    }
    assert(points@.take(0).len() == 0);
    None
}

/// An optional day number, taken as an integer.
pub open spec fn day_number(day: Option<i128>) -> Option<int> {
    match day {
        Some(d) => Some(d as int),
        None => None,
    }
}

/// The position of the point that prices a moment (see `selected_point`).
pub fn select_point(points: &Vec<RatePoint>, day: Option<i128>, undated: bool) -> (r: Option<usize>)
    ensures
        r matches Some(j) ==> j < points.len(),
        selected_point(points@, day_number(day), undated) matches Some(j) ==> 0 <= j < points.len(),
        r == (match selected_point(points@, day_number(day), undated) {
            Some(j) => Some(j as usize),
            None => None::<usize>,
        }),
{
    proof {
        if let Some(d) = day {
            lemma_last_on_or_before_bounds(points@, d as int);
        }
    }
    match day {
        Some(d) if !undated => last_point_on_or_before(points, d),
        _ => if points.len() > 0 {
            Some(points.len() - 1)
        } else {
            None
        },
    }
}

/// A point is out of place when one of its rates is negative or it does not
/// take effect strictly after the point before it.
pub open spec fn point_bad(points: Seq<RatePoint>, j: int) -> bool {
    points[j].negative || (j > 0 && points[j].effective_day <= points[j - 1].effective_day)
}

/// Every rate is non-negative and the effective days strictly increase.
pub open spec fn history_valid(points: Seq<RatePoint>) -> bool {
    forall|j: int| 0 <= j < points.len() ==> !#[trigger] point_bad(points, j)
}

/// `j` is the first out-of-place point of a history.
pub open spec fn first_bad_point(points: Seq<RatePoint>, j: int) -> bool {
    &&& 0 <= j < points.len()
    &&& point_bad(points, j)
    &&& forall|k: int| 0 <= k < j ==> !#[trigger] point_bad(points, k)
}

/// The position of the first out-of-place point of a history.
fn find_bad_point(points: &Vec<RatePoint>) -> (r: Option<usize>)
    ensures
        match r {
            Some(j) => first_bad_point(points@, j as int),
            None => history_valid(points@),
        },
{
    let mut j: usize = 0;
    while j < points.len()
        invariant
            j <= points.len(),
            forall|k: int| 0 <= k < j ==> !#[trigger] point_bad(points@, k),
        decreases points.len() - j,
    {
        if points[j].negative || (j > 0 && points[j].effective_day <= points[j - 1].effective_day) {
            return Some(j);
        }
        j += 1;
    }
    None
}

/// A model's price history, named.
pub type History = (String, Vec<RatePoint>);

/// Some history is kept under `name`.
pub open spec fn has_history(histories: Seq<History>, name: Seq<char>) -> bool {
    exists|i: int| 0 <= i < histories.len() && #[trigger] histories[i].0@ == name
}

/// Some proxy is named `name`.
pub open spec fn is_proxy(proxies: Seq<(String, String)>, name: Seq<char>) -> bool {
    exists|i: int| 0 <= i < proxies.len() && #[trigger] proxies[i].0@ == name
}

/// Every history is in order.
pub open spec fn histories_valid(histories: Seq<History>) -> bool {
    forall|i: int| 0 <= i < histories.len() ==> history_valid(#[trigger] histories[i].1@)
}

/// Every proxy names a model that has a history.
pub open spec fn proxies_resolve(histories: Seq<History>, proxies: Seq<(String, String)>) -> bool {
    forall|i: int| 0 <= i < proxies.len() ==> has_history(histories, #[trigger] proxies[i].1@)
}

/// Every undated proxy is a proxy.
pub open spec fn undated_are_proxies(proxies: Seq<(String, String)>, undated: Seq<String>) -> bool {
    forall|i: int| 0 <= i < undated.len() ==> is_proxy(proxies, #[trigger] undated[i]@)
}

/// Why a catalog is refused.
#[derive(Debug)]
pub enum CatalogError {
    /// A rate of `model` effective on `effective_day` is negative.
    NegativeRate { model: String, effective_day: i64 },
    /// A point of `model` does not take effect after the one before it.
    NonIncreasingEffectiveDate { model: String, effective_day: i64 },
    /// `proxy` stands for `target`, which has no history.
    UnresolvedProxy { proxy: String, target: String },
    /// An undated proxy that is not a proxy.
    InvalidUndatedProxy(String),
}

/// What the catalog's rules say of the rates, and of which model a name is
/// priced as: histories by model, proxies as (alias, model), and the
/// proxies that are always priced at their model's newest rates.
pub struct Catalog {
    pub histories: Vec<History>,
    pub proxies: Vec<(String, String)>,
    pub undated_proxies: Vec<String>,
}

/// What `Catalog::parse` returns for the three tables, as a claim on a result.
pub open spec fn parse_result(
    histories: Seq<History>,
    proxies: Seq<(String, String)>,
    undated: Seq<String>,
    r: Result<Catalog, CatalogError>,
) -> bool {
    match r {
        Ok(c) => {
            &&& histories_valid(histories)
            &&& proxies_resolve(histories, proxies)
            &&& undated_are_proxies(proxies, undated)
            &&& c.histories@ == histories
            &&& c.proxies@ == proxies
            &&& c.undated_proxies@ == undated
        },
        Err(CatalogError::NegativeRate { model, effective_day }) => exists|i: int, j: int|
            {
                &&& 0 <= i < histories.len()
                &&& forall|k: int| 0 <= k < i ==> history_valid(#[trigger] histories[k].1@)
                &&& first_bad_point(histories[i].1@, j)
                &&& histories[i].1@[j].negative
                &&& model@ == histories[i].0@
                &&& effective_day == #[trigger] histories[i].1@[j].effective_day
            },
        Err(CatalogError::NonIncreasingEffectiveDate { model, effective_day }) => exists|i: int, j: int|
            {
                &&& 0 <= i < histories.len()
                &&& forall|k: int| 0 <= k < i ==> history_valid(#[trigger] histories[k].1@)
                &&& first_bad_point(histories[i].1@, j)
                &&& !histories[i].1@[j].negative
                &&& model@ == histories[i].0@
                &&& effective_day == #[trigger] histories[i].1@[j].effective_day
            },
        Err(CatalogError::UnresolvedProxy { proxy, target }) => {
            &&& histories_valid(histories)
            &&& exists|i: int|
                {
                    &&& 0 <= i < proxies.len()
                    &&& forall|k: int| 0 <= k < i ==> has_history(histories, #[trigger] proxies[k].1@)
                    &&& !has_history(histories, proxies[i].1@)
                    &&& proxy@ == #[trigger] proxies[i].0@
                    &&& target@ == proxies[i].1@
                }
        },
        Err(CatalogError::InvalidUndatedProxy(name)) => {
            &&& histories_valid(histories)
            &&& proxies_resolve(histories, proxies)
            &&& exists|i: int|
                {
                    &&& 0 <= i < undated.len()
                    &&& forall|k: int| 0 <= k < i ==> is_proxy(proxies, #[trigger] undated[k]@)
                    &&& !is_proxy(proxies, undated[i]@)
                    &&& name@ == #[trigger] undated[i]@
                }
        },
    }
}

/// The position of the first history kept under `name`.
fn find_history(histories: &Vec<History>, name: &str) -> (r: Option<usize>)
    ensures
        match r {
            Some(i) => i < histories.len() && histories@[i as int].0@ == name@
                && first_key(text_keys(histories@), name@) == Some(i as int),
            None => !has_history(histories@, name@) && first_key(text_keys(histories@), name@) is None,
        },
{
    let r = find_text_key(histories, name);
    proof {
        let t = text_keys(histories@);
        lemma_first_key_bounds(t, name@);
        if r is None {
            if has_history(histories@, name@) {
                let i = choose|i: int| 0 <= i < histories@.len() && #[trigger] histories@[i].0@ == name@;
                assert(t[i].0 == histories@[i].0@);
            }
        } else {
            assert(t[r->0 as int].0 == histories@[r->0 as int].0@);
        }
    }
    r
}

/// The position of the first proxy named `name`.
fn find_proxy(proxies: &Vec<(String, String)>, name: &str) -> (r: Option<usize>)
    ensures
        match r {
            Some(i) => i < proxies.len() && proxies@[i as int].0@ == name@
                && first_key(text_keys(proxies@), name@) == Some(i as int),
            None => !is_proxy(proxies@, name@) && first_key(text_keys(proxies@), name@) is None,
        },
{
    let r = find_text_key(proxies, name);
    proof {
        let t = text_keys(proxies@);
        lemma_first_key_bounds(t, name@);
        if r is None {
            if is_proxy(proxies@, name@) {
                let i = choose|i: int| 0 <= i < proxies@.len() && #[trigger] proxies@[i].0@ == name@;
                assert(t[i].0 == proxies@[i].0@);
            }
        } else {
            assert(t[r->0 as int].0 == proxies@[r->0 as int].0@);
        }
    }
    r
}

impl Catalog {
    /// Checks the three tables of a catalog and keeps them: every history
    /// in strictly increasing order of effective day with no negative rate,
    /// every proxy standing for a model with a history, and every undated
    /// proxy a proxy. The first fault found, in that order, is the error.
    pub fn parse(
        histories: Vec<History>,
        proxies: Vec<(String, String)>,
        undated_proxies: Vec<String>,
    ) -> (r: Result<Catalog, CatalogError>)
        ensures
            parse_result(histories@, proxies@, undated_proxies@, r),
    {
        let mut i: usize = 0;
        while i < histories.len()
            invariant
                i <= histories.len(),
                forall|k: int| 0 <= k < i ==> history_valid(#[trigger] histories@[k].1@),
            decreases histories.len() - i,
        {
            match find_bad_point(&histories[i].1) {
                Some(j) => {
                    let point = histories[i].1[j];
                    let model = histories[i].0.clone();
                    proof {
                        assert(first_bad_point(histories@[i as int].1@, j as int));
                    }
                    if point.negative {
                        return Err(CatalogError::NegativeRate { model, effective_day: point.effective_day });
                    } else {
                        return Err(CatalogError::NonIncreasingEffectiveDate { model, effective_day: point.effective_day });
                    }
                },
                None => {},
            }
            i += 1;
        }
        let mut p: usize = 0;
        while p < proxies.len()
            invariant
                p <= proxies.len(),
                histories_valid(histories@),
                forall|k: int| 0 <= k < p ==> has_history(histories@, #[trigger] proxies@[k].1@),
            decreases proxies.len() - p,
        {
            if find_history(&histories, proxies[p].1.as_str()).is_none() {
                let proxy = proxies[p].0.clone();
                let target = proxies[p].1.clone();
                assert(proxy@ == proxies@[p as int].0@ && target@ == proxies@[p as int].1@);
                return Err(CatalogError::UnresolvedProxy { proxy, target });
            }
            p += 1;
        }
        let mut u: usize = 0;
        while u < undated_proxies.len()
            invariant
                u <= undated_proxies.len(),
                histories_valid(histories@),
                proxies_resolve(histories@, proxies@),
                forall|k: int| 0 <= k < u ==> is_proxy(proxies@, #[trigger] undated_proxies@[k]@),
            decreases undated_proxies.len() - u,
        {
            if find_proxy(&proxies, undated_proxies[u].as_str()).is_none() {
                return Err(CatalogError::InvalidUndatedProxy(undated_proxies[u].clone()));
            }
            u += 1;
        }
        Ok(Catalog { histories, proxies, undated_proxies })
    }
}

/// The model whose history prices `model`: the model a proxy stands for,
/// else the model itself.
pub open spec fn priced_as(proxies: Seq<(String, String)>, model: Seq<char>) -> Seq<char> {
    match lookup(text_keys(proxies), model) {
        Some(target) => target@,
        None => model,
    }
}

/// Where the rates that price `model` at `at` (nanoseconds since the epoch)
/// stand: the first history of the model it is priced as, and the point of
/// that history selected for the day of `at`.
pub open spec fn rate_position(
    histories: Seq<History>,
    proxies: Seq<(String, String)>,
    undated: Seq<String>,
    model: Seq<char>,
    at: Option<i128>,
) -> Option<(int, int)> {
    match first_key(text_keys(histories), priced_as(proxies, model)) {
        None => None,
        Some(h) => {
            let day = match at {
                Some(n) => Some((n as int) / (NANOS_PER_DAY as int)),
                None => None,
            };
            match selected_point(histories[h].1@, day, views(undated).contains(model)) {
                Some(j) => Some((h, j)),
                None => None,
            }
        },
    }
}

/// How a token count is priced: the history and point whose rates apply,
/// the input tokens charged at the uncached input rate, and whether every
/// nonzero count has a published rate.
#[derive(Clone, Copy, Debug, PartialEq, Eq, Structural)]
pub struct Pricing {
    pub history: usize,
    pub point: usize,
    pub uncached_input: u64,
    pub complete: bool,
}

impl Catalog {
    /// How `usage` of `model` at `at` is priced, or `None` when no rates
    /// apply: the model (or the model its proxy stands for) has no history,
    /// or no point of it had taken effect by then.
    pub fn price(&self, model: &str, at: Option<i128>, usage: &Usage) -> (r: Option<Pricing>)
        ensures
            match rate_position(self.histories@, self.proxies@, self.undated_proxies@, model@, at) {
                None => r is None,
                Some((h, j)) => r matches Some(p) && {
                    &&& p.history == h
                    &&& p.point == j
                    &&& 0 <= h < self.histories@.len()
                    &&& 0 <= j < self.histories@[h].1@.len()
                    &&& p.uncached_input == uncached_input_spec(*usage)
                    &&& p.complete == prices_all(self.histories@[h].1@[j], *usage)
                },
            },
    {
        let target: &str = match find_proxy(&self.proxies, model) {
            Some(i) => self.proxies[i].1.as_str(),
            None => model,
        };
        proof {
            assert(target@ == priced_as(self.proxies@, model@));
        }
        let h = match find_history(&self.histories, target) {
            Some(h) => h,
            None => return None,
        };
        let undated = contains_text(&self.undated_proxies, model);
        let day: Option<i128> = match at {
            Some(n) => Some(day_of(n)),
            None => None,
        };
        let points = &self.histories[h].1;
        proof {
            let spec_day = match at {
                Some(n) => Some((n as int) / (NANOS_PER_DAY as int)),
                None => None,
            };
            assert(day_number(day) == spec_day);
            assert(first_key(text_keys(self.histories@), priced_as(self.proxies@, model@)) == Some(h as int));
        }
        match select_point(points, day, undated) {
            Some(j) => {
                let point = &points[j];
                Some(Pricing { history: h, point: j, uncached_input: uncached_input(usage), complete: is_completely_priced(point, usage) })
            },
            None => None,
        }
    }
}

} // verus!
