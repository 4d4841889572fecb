//! The metric formulas, and the readers that take their inputs from the hosting
//! platform's answers. Every score is a value in [0, 1], held in millionths.

use vstd::prelude::*;
use crate::json::{json_str_at, json_u64_at, str_at, u64_at};
use crate::text::{chars_of, same};

verus! {

/// The number of millionths in a score of 1.
pub const SCORE_UNIT: u32 = 1_000_000;

/// A score in [0, 1], held as a whole number of millionths.
pub struct Score {
    millionths: u32,
}

impl View for Score {
    type V = nat;

    /// The score in millionths.
    closed spec fn view(&self) -> nat {
        self.millionths as nat
    }
}

impl Score {
    #[verifier::type_invariant]
    pub closed spec fn inv(&self) -> bool {
        self.millionths <= SCORE_UNIT
    }

    /// Every score lies in [0, 1].
    pub proof fn lemma_in_unit_range(s: Score)
        requires
            s.inv(),
        ensures
            s@ <= SCORE_UNIT,
    {
    }

    /// The score of `m` millionths, capped at 1.
    pub fn from_millionths(m: u64) -> (r: Score)
        ensures
            r@ == if m <= SCORE_UNIT as u64 {
                m as nat
            } else {
                SCORE_UNIT as nat
            },
    {
        if m <= SCORE_UNIT as u64 {
            Score { millionths: m as u32 }
        } else {
            Score { millionths: SCORE_UNIT }
        }
    }

    /// The score 0.
    pub fn zero() -> (r: Score)
        ensures
            r@ == 0,
    {
        Score { millionths: 0 }
    }

    /// The score in millionths.
    pub fn millionths(&self) -> (r: u32)
        ensures
            r == self@,
            r <= SCORE_UNIT,
    {
        proof {
            use_type_invariant(self);
        }
        self.millionths
    }
}

/// Correctness from the number of issues (`all`) and of closed issues (`closed`):
/// their ratio, and 0 when there are no issues or more closed than all.
pub open spec fn correctness_value(all: nat, closed: nat) -> nat {
    if all == 0 || all < closed {
        0
    } else {
        (closed * SCORE_UNIT / all as int) as nat
    }
}

/// Bus factor from the number `n` of maintainers: `2n/(n+1) - 1`, that is
/// `(n-1)/(n+1)`, and 0 when there are none.
pub open spec fn bus_factor_value(n: nat) -> nat {
    if n == 0 {
        0
    } else {
        ((n - 1) * SCORE_UNIT / (n + 1) as int) as nat
    }
}

/// Bus factor is 0 without maintainers, and stays below 1 however many there are.
pub proof fn lemma_bus_factor_in_unit_range(n: nat)
    ensures
        bus_factor_value(0) == 0,
        bus_factor_value(n) < SCORE_UNIT,
{
    if n > 0 {
        let k = n as int;
        assert((k - 1) * 1_000_000 / (k + 1) < 1_000_000) by (nonlinear_arith)
            requires
                k >= 1,
        ;
    }
}

/// Correctness lies in [0, 1] for all counts.
pub proof fn lemma_correctness_in_unit_range(all: nat, closed: nat)
    ensures
        correctness_value(all, closed) <= SCORE_UNIT,
{
    if all > 0 && all >= closed {
        let c = closed as int;
        let a = all as int;
        assert(c * 1_000_000 / a <= 1_000_000) by (nonlinear_arith)
            requires
                c <= a,
                a > 0,
        ;
    }
}

/// Whether a license identifier is one of those compatible with reuse under the
/// LGPL 2.1.
pub open spec fn compatible_license(id: Seq<char>) -> bool {
    id == "LGPL-2.1-only"@ || id == "LGPL-2.1"@ || id == "LGPL-2.1-or-later"@ || id
        == "LGPL-3.0-only"@ || id == "LGPL-3.0"@ || id == "BSD-3-Clause"@ || id == "MIT"@ || id
        == "X11"@ || id == "CC0-1.0"@ || id == "Unlicense"@
}

/// License compatibility of a license identifier: 1 when compatible, else 0.
pub open spec fn compatibility_value(id: Seq<char>) -> nat {
    if compatible_license(id) {
        SCORE_UNIT as nat
    } else {
        0
    }
}

/// The number of times `c` occurs in `s`.
pub open spec fn count_char(s: Seq<char>, c: char) -> nat
    decreases s.len(),
{
    if s.len() == 0 {
        0
    } else {
        count_char(s.drop_last(), c) + if s.last() == c {
            1nat
        } else {
            0nat
        }
    }
}

proof fn lemma_count_char_bound(s: Seq<char>, c: char)
    ensures
        count_char(s, c) <= s.len(),
    decreases s.len(),
{
    if s.len() > 0 {
        lemma_count_char_bound(s.drop_last(), c);
    }
}

/// The number of lines of a text: one per line break, and one more for a last line
/// that has no break.
pub open spec fn line_count(s: Seq<char>) -> nat {
    count_char(s, '\n') + if s.len() > 0 && s.last() != '\n' {
        1nat
    } else {
        0nat
    }
}

/// The JSON pointer of the number of maintainers in the answer to `bus_factor_query`.
pub open spec fn maintainers_pointer() -> Seq<char> {
    "/data/repository/mentionableUsers/totalCount"@
}

/// The JSON pointer of the number of pull requests in the answer to
/// `responsiveness_query`.
pub open spec fn recent_pulls_pointer() -> Seq<char> {
    "/data/search/issueCount"@
}

/// The JSON pointer of the license identifier in the answer about a repository's license.
pub open spec fn license_pointer() -> Seq<char> {
    "/license/spdx_id"@
}

/// Correctness from the number of issues and of closed issues.
pub fn calc_correctness(all: u32, closed: u32) -> (r: Score)
    ensures
        r@ == correctness_value(all as nat, closed as nat),
{
    if all == 0 || all < closed {
        Score::zero()
    } else {
        proof {
            let c = closed as int;
            assert(c * 1_000_000 <= 4_294_967_295 * 1_000_000) by (nonlinear_arith)
                requires
                    0 <= c <= 4_294_967_295,
            ;
        }
        let m = (closed as u64) * (SCORE_UNIT as u64) / (all as u64);
        proof {
            let c = closed as int;
            let a = all as int;
            assert(c * 1_000_000 <= a * 1_000_000) by (nonlinear_arith)
                requires
                    c <= a,
            ;
            assert(c * 1_000_000 / a <= 1_000_000) by (nonlinear_arith)
                requires
                    c * 1_000_000 <= a * 1_000_000,
                    a > 0,
            ;
        }
        Score::from_millionths(m)
    }
}

/// Bus factor from the number of maintainers.
pub fn calc_bus_factor(n: u64) -> (r: Score)
    ensures
        r@ == bus_factor_value(n as nat),
{
    if n == 0 {
        Score::zero()
    } else {
        proof {
            let k = n as int;
            assert((k - 1) * 1_000_000 <= 18_446_744_073_709_551_615 * 1_000_000)
                by (nonlinear_arith)
                requires
                    1 <= k <= 18_446_744_073_709_551_615,
            ;
        }
        let m = ((n - 1) as u128) * (SCORE_UNIT as u128) / ((n as u128) + 1);
        proof {
            let k = n as int;
            assert((k - 1) * 1_000_000 / (k + 1) < 1_000_000) by (nonlinear_arith)
                requires
                    k >= 1,
            ;
        }
        Score::from_millionths(m as u64)
    }
}

/// License compatibility of a license identifier.
pub fn calc_compatibility(license: &str) -> (r: Score)
    ensures
        r@ == compatibility_value(license@),
{
    let id = chars_of(license);
    let id = id.as_slice();
    if same(id, chars_of("LGPL-2.1-only").as_slice()) || same(id, chars_of("LGPL-2.1").as_slice())
        || same(id, chars_of("LGPL-2.1-or-later").as_slice()) || same(
        id,
        chars_of("LGPL-3.0-only").as_slice(),
    ) || same(id, chars_of("LGPL-3.0").as_slice()) || same(
        id,
        chars_of("BSD-3-Clause").as_slice(),
    ) || same(id, chars_of("MIT").as_slice()) || same(id, chars_of("X11").as_slice()) || same(
        id,
        chars_of("CC0-1.0").as_slice(),
    ) || same(id, chars_of("Unlicense").as_slice()) {
        Score::from_millionths(SCORE_UNIT as u64)
    } else {
        Score::zero()
    }
}

/// Correctness from the page counts of the issue and pull-request listings, all and
/// closed. The issue listings count pull requests too, which are taken out. 0 when a
/// count is missing or a listing counts fewer issues than pull requests.
pub fn correctness_from_counts(
    issues_all: Option<u32>,
    pulls_all: Option<u32>,
    issues_closed: Option<u32>,
    pulls_closed: Option<u32>,
) -> (r: Score)
    ensures
        r@ == match (issues_all, pulls_all, issues_closed, pulls_closed) {
            (Some(ia), Some(pa), Some(ic), Some(pc)) => if ia < pa || ic < pc {
                0
            } else {
                correctness_value((ia - pa) as nat, (ic - pc) as nat)
            },
            _ => 0,
        },
{
    match (issues_all, pulls_all, issues_closed, pulls_closed) {
        (Some(ia), Some(pa), Some(ic), Some(pc)) => {
            if ia < pa || ic < pc {
                Score::zero()
            } else {
                calc_correctness(ia - pa, ic - pc)
            }
        },
        _ => Score::zero(),
    }
}

/// Bus factor from the answer to `bus_factor_query`; 0 when it holds no count.
pub fn bus_factor_from_response(body: &str) -> (r: Score)
    ensures
        r@ == match json_u64_at(body@, maintainers_pointer()) {
            Some(n) => bus_factor_value(n as nat),
            None => 0,
        },
{
    match u64_at(body, "/data/repository/mentionableUsers/totalCount") {
        Some(n) => calc_bus_factor(n),
        None => Score::zero(),
    }
}

/// License compatibility from the answer about a repository's license; 0 when it
/// names no license.
pub fn compatibility_from_response(body: &str) -> (r: Score)
    ensures
        r@ == match json_str_at(body@, license_pointer()) {
            Some(id) => compatibility_value(id),
            None => 0,
        },
{
    match str_at(body, "/license/spdx_id") {
        Some(id) => calc_compatibility(id.as_str()),
        None => Score::zero(),
    }
}

/// The number of pull requests in the answer to `responsiveness_query`.
pub fn recent_pulls_from_response(body: &str) -> (r: Option<u64>)
    ensures
        r == json_u64_at(body@, recent_pulls_pointer()),
{
    u64_at(body, "/data/search/issueCount")
}

/// The number of lines of a README's text.
pub fn readme_line_count(text: &str) -> (r: usize)
    ensures
        r == line_count(text@),
{
    let cs = chars_of(text);
    let n = cs.len();
    let mut count: usize = 0;
    let mut i: usize = 0;
    while i < n
        invariant
            n == cs@.len(),
            cs@ == text@,
            i <= n,
            count == count_char(cs@.subrange(0, i as int), '\n'),
            count <= i,
        decreases n - i,
    {
        proof {
            assert(cs@.subrange(0, i + 1).drop_last() =~= cs@.subrange(0, i as int));
        }
        if cs[i] == '\n' {
            count += 1;
        }
        i += 1;
    }
    proof {
        assert(cs@.subrange(0, n as int) =~= cs@);
        if n > 0 {
            lemma_count_char_bound(cs@.drop_last(), '\n');
        }
    }
    if n > 0 && cs[n - 1] != '\n' {
        count + 1
    } else {
        count
    }
}

} // verus!
