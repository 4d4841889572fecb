//! The report: one record per resolved package, ranked by net score, one line each.

use vstd::prelude::*;
use vstd::multiset::Multiset;
use crate::metrics::{Score, SCORE_UNIT};
use crate::text::{digit_char, push_char, push_digit};

verus! {

broadcast use vstd::seq_lib::group_to_multiset_ensures;

/// The scores of one package, in millionths, with the URL it was given by.
pub struct RecordView {
    pub url: Seq<char>,
    pub ramp_up: nat,
    pub correctness: nat,
    pub bus_factor: nat,
    pub responsiveness: nat,
    pub compatibility: nat,
    pub net: nat,
}

/// The scores of one package, with the URL it was given by.
pub struct ScoreRecord {
    url: String,
    ramp_up: Score,
    correctness: Score,
    bus_factor: Score,
    responsiveness: Score,
    compatibility: Score,
    net: Score,
}

impl View for ScoreRecord {
    type V = RecordView;

    closed spec fn view(&self) -> RecordView {
        RecordView {
            url: self.url@,
            ramp_up: self.ramp_up@,
            correctness: self.correctness@,
            bus_factor: self.bus_factor@,
            responsiveness: self.responsiveness@,
            compatibility: self.compatibility@,
            net: self.net@,
        }
    }
}

/// The net score: the sub-scores weighted 0.05, 0.10, 0.10, 0.25 and 0.50, in that
/// order, rounded down to a millionth.
pub open spec fn net_value(
    ramp_up: nat,
    correctness: nat,
    bus_factor: nat,
    responsiveness: nat,
    compatibility: nat,
) -> nat {
    ((5 * ramp_up + 10 * correctness + 10 * bus_factor + 25 * responsiveness + 50
        * compatibility) / 100) as nat
}

/// The views of a sequence of records.
pub open spec fn record_views(s: Seq<ScoreRecord>) -> Seq<RecordView> {
    s.map_values(|x: ScoreRecord| x@)
}

/// The index of the first record with the highest net score among the first `n`.
pub open spec fn first_best(s: Seq<RecordView>, n: int) -> int
    decreases n,
{
    if n <= 1 {
        0
    } else {
        let m = first_best(s, n - 1);
        if s[n - 1].net > s[m].net {
            n - 1
        } else {
            m
        }
    }
}

/// Records in the report's order: by net score, highest first, and in their given
/// order among equal net scores.
pub open spec fn ranked(s: Seq<RecordView>) -> Seq<RecordView>
    decreases s.len(),
    via ranked_decreases
{
    if s.len() == 0 {
        s
    } else {
        let m = first_best(s, s.len() as int);
        seq![s[m]] + ranked(s.remove(m))
    }
}

#[via_fn]
proof fn ranked_decreases(s: Seq<RecordView>) {
    if s.len() > 0 {
        lemma_first_best(s, s.len() as int);
    }
}

proof fn lemma_first_best(s: Seq<RecordView>, n: int)
    requires
        1 <= n <= s.len(),
    ensures
        0 <= first_best(s, n) < n,
        forall|j: int| 0 <= j < n ==> #[trigger] s[j].net <= s[first_best(s, n)].net,
        forall|j: int| 0 <= j < first_best(s, n) ==> #[trigger] s[j].net < s[first_best(s, n)].net,
    decreases n,
{
    if n > 1 {
        lemma_first_best(s, n - 1);
    }
}

proof fn lemma_ranked_bounded(s: Seq<RecordView>, b: nat)
    requires
        forall|i: int| 0 <= i < s.len() ==> s[i].net <= b,
    ensures
        ranked(s).len() == s.len(),
        forall|i: int| 0 <= i < s.len() ==> ranked(s)[i].net <= b,
    decreases s.len(),
{
    if s.len() > 0 {
        let m = first_best(s, s.len() as int);
        lemma_first_best(s, s.len() as int);
        let t = s.remove(m);
        assert forall|i: int| 0 <= i < t.len() implies t[i].net <= b by {
            if i < m {
                assert(t[i] == s[i]);
            } else {
                assert(t[i] == s[i + 1]);
            }
        }
        lemma_ranked_bounded(t, b);
    }
}

/// The report's order is by net score, highest first, and holds the records it was
/// given, each as often as it was given.
pub proof fn lemma_ranked_sorted(s: Seq<RecordView>)
    ensures
        ranked(s).len() == s.len(),
        ranked(s).to_multiset() == s.to_multiset(),
        forall|i: int, j: int| 0 <= i < j < s.len() ==> ranked(s)[i].net >= ranked(s)[j].net,
    decreases s.len(),
{
    if s.len() > 0 {
        let m = first_best(s, s.len() as int);
        lemma_first_best(s, s.len() as int);
        let t = s.remove(m);
        lemma_ranked_sorted(t);
        assert forall|i: int| 0 <= i < t.len() implies t[i].net <= s[m].net by {
            if i < m {
                assert(t[i] == s[i]);
            } else {
                assert(t[i] == s[i + 1]);
            }
        }
        lemma_ranked_bounded(t, s[m].net);
        let r = ranked(s);
        assert(r == seq![s[m]] + ranked(t));
        assert forall|i: int, j: int| 0 <= i < j < s.len() implies r[i].net >= r[j].net by {
            assert(r[j] == ranked(t)[j - 1]);
            if i > 0 {
                assert(r[i] == ranked(t)[i - 1]);
            }
        }
        vstd::seq_lib::lemma_multiset_commutative(seq![s[m]], ranked(t));
        vstd::seq_lib::to_multiset_remove(s, m);
        assert(seq![s[m]].to_multiset() =~= Multiset::singleton(s[m])) by {
            assert(seq![s[m]] =~= Seq::<RecordView>::empty().push(s[m]));
        }
        assert(r.to_multiset() =~= s.to_multiset());
    }
}

/// A score in millionths rounded to hundredths, halves up.
pub open spec fn hundredths(m: nat) -> nat {
    ((m + 5000) / 10000) as nat
}

/// A score written with two decimals.
pub open spec fn fixed2(m: nat) -> Seq<char> {
    let h = hundredths(m);
    seq![
        digit_char((h / 100) as nat),
        '.',
        digit_char(((h / 10) % 10) as nat),
        digit_char((h % 10) as nat),
    ]
}

/// The report line of a record: its URL as given, then its net score and its five
/// sub-scores, each with two decimals.
pub open spec fn line_text(v: RecordView) -> Seq<char> {
    "{\"URL\":\""@ + v.url + "\", \"NET_SCORE\":"@ + fixed2(v.net) + ", \"RAMP_UP_SCORE\":"@
        + fixed2(v.ramp_up) + ", \"CORRECTNESS_SCORE\":"@ + fixed2(v.correctness)
        + ", \"BUS_FACTOR_SCORE\":"@ + fixed2(v.bus_factor)
        + ", \"RESPONSIVE_MAINTAINER_SCORE\":"@ + fixed2(v.responsiveness)
        + ", \"LICENSE_SCORE\":"@ + fixed2(v.compatibility) + "}"@
}

/// Whether every score of a record lies in [0, 1].
pub open spec fn scores_in_unit_range(v: RecordView) -> bool {
    &&& v.ramp_up <= SCORE_UNIT
    &&& v.correctness <= SCORE_UNIT
    &&& v.bus_factor <= SCORE_UNIT
    &&& v.responsiveness <= SCORE_UNIT
    &&& v.compatibility <= SCORE_UNIT
    &&& v.net <= SCORE_UNIT
}

/// A score between 0 and 1 is written as a number between 0 and 1: `1.00`, or `0.`
/// followed by two digits.
pub proof fn lemma_written_score_in_unit_range(m: nat)
    requires
        m <= SCORE_UNIT,
    ensures
        hundredths(m) <= 100,
        fixed2(m) == seq!['1', '.', '0', '0'] || (fixed2(m)[0] == '0' && fixed2(m)[1] == '.'),
{
    reveal_strlit("0123456789");
    let h = hundredths(m);
    if h == 100 {
        assert(fixed2(m) =~= seq!['1', '.', '0', '0']);
    }
}

/// Appends `score` written with two decimals.
fn push_fixed2(s: &mut String, score: &Score)
    ensures
        final(s)@ == old(s)@ + fixed2(score@),
{
    let m = score.millionths();
    let h = (m + 5000) / 10000;
    push_digit(s, h / 100);
    push_char(s, '.');
    push_digit(s, (h / 10) % 10);
    push_digit(s, h % 10);
    assert(final(s)@ =~= old(s)@ + fixed2(score@));
}

/// The report line of `rec`.
pub fn render_line(rec: &ScoreRecord) -> (r: String)
    ensures
        r@ == line_text(rec@),
        scores_in_unit_range(rec@),
{
    rec.scores_bounded();
    let mut s = String::from_str("{\"URL\":\"");
    s.append(rec.url());
    s.append("\", \"NET_SCORE\":");
    push_fixed2(&mut s, rec.net_score());
    s.append(", \"RAMP_UP_SCORE\":");
    push_fixed2(&mut s, rec.ramp_up());
    s.append(", \"CORRECTNESS_SCORE\":");
    push_fixed2(&mut s, rec.correctness());
    s.append(", \"BUS_FACTOR_SCORE\":");
    push_fixed2(&mut s, rec.bus_factor());
    s.append(", \"RESPONSIVE_MAINTAINER_SCORE\":");
    push_fixed2(&mut s, rec.responsiveness());
    s.append(", \"LICENSE_SCORE\":");
    push_fixed2(&mut s, rec.compatibility());
    s.append("}");
    s
}

/// The lines of the report on `records`, in the report's order.
pub fn report_lines(records: Vec<ScoreRecord>) -> (r: Vec<String>)
    ensures
        r@.len() == records@.len(),
        forall|i: int|
            0 <= i < r@.len() ==> #[trigger] r@[i]@ == line_text(ranked(record_views(records@))[i]),
{
    let ghost views = record_views(records@);
    proof {
        lemma_ranked_sorted(views);
    }
    let ordered = rank(records);
    let mut lines: Vec<String> = Vec::new();
    let mut i: usize = 0;
    while i < ordered.len()
        invariant
            i <= ordered@.len(),
            record_views(ordered@) == ranked(views),
            ranked(views).len() == views.len(),
            views.len() == records@.len(),
            lines@.len() == i,
            forall|k: int| 0 <= k < i ==> #[trigger] lines@[k]@ == line_text(ranked(views)[k]),
        decreases ordered@.len() - i,
    {
        let line = render_line(&ordered[i]);
        proof {
            assert(record_views(ordered@)[i as int] == ordered@[i as int]@);
        }
        lines.push(line);
        i += 1;
    }
    lines
}

/// Whether a record has net score `v`.
pub open spec fn with_net(v: nat) -> spec_fn(RecordView) -> bool {
    |r: RecordView| r.net == v
}

proof fn lemma_filter_none(a: Seq<RecordView>, v: nat)
    requires
        forall|i: int| 0 <= i < a.len() ==> (#[trigger] a[i]).net != v,
    ensures
        a.filter(with_net(v)) == Seq::<RecordView>::empty(),
    decreases a.len(),
{
    reveal(Seq::filter);
    if a.len() > 0 {
        lemma_filter_none(a.drop_last(), v);
        assert(a.last() == a[a.len() - 1]);
    }
}

/// The report keeps the given order among records of equal net score: the records
/// with any one net score come in the same order before and after ranking.
pub proof fn lemma_ranked_stable(s: Seq<RecordView>, v: nat)
    ensures
        ranked(s).filter(with_net(v)) == s.filter(with_net(v)),
    decreases s.len(),
{
    reveal(Seq::filter);
    if s.len() > 0 {
        let m = first_best(s, s.len() as int);
        lemma_first_best(s, s.len() as int);
        let t = s.remove(m);
        lemma_ranked_stable(t, v);
        let p = with_net(v);
        let a = s.subrange(0, m);
        let x = seq![s[m]];
        let c = s.subrange(m + 1, s.len() as int);
        assert(s =~= a + x + c);
        assert(t =~= a + c);
        Seq::filter_distributes_over_add(a + x, c, p);
        Seq::filter_distributes_over_add(a, x, p);
        Seq::filter_distributes_over_add(a, c, p);
        Seq::filter_distributes_over_add(x, ranked(t), p);
        assert(x.drop_last() =~= Seq::<RecordView>::empty());
        if s[m].net == v {
            assert forall|i: int| 0 <= i < a.len() implies (#[trigger] a[i]).net != v by {
                assert(a[i] == s[i]);
            }
            lemma_filter_none(a, v);
            assert(a.filter(p) + x.filter(p) + c.filter(p) =~= x.filter(p) + (a.filter(p)
                + c.filter(p)));
        } else {
            lemma_filter_none(x, v);
            assert(a.filter(p) + x.filter(p) + c.filter(p) =~= a.filter(p) + c.filter(p));
        }
    }
}

impl ScoreRecord {
    /// The record of a package given by `url`, with its five sub-scores and the net
    /// score they weigh to.
    pub fn new(
        url: String,
        ramp_up: Score,
        correctness: Score,
        bus_factor: Score,
        responsiveness: Score,
        compatibility: Score,
    ) -> (r: ScoreRecord)
        ensures
            r@ == (RecordView {
                url: url@,
                ramp_up: ramp_up@,
                correctness: correctness@,
                bus_factor: bus_factor@,
                responsiveness: responsiveness@,
                compatibility: compatibility@,
                net: net_value(
                    ramp_up@,
                    correctness@,
                    bus_factor@,
                    responsiveness@,
                    compatibility@,
                ),
            }),
            scores_in_unit_range(r@),
    {
        let sum = 5 * (ramp_up.millionths() as u64) + 10 * (correctness.millionths() as u64) + 10
            * (bus_factor.millionths() as u64) + 25 * (responsiveness.millionths() as u64) + 50 * (
        compatibility.millionths() as u64);
        let net = Score::from_millionths(sum / 100);
        let r = ScoreRecord {
            url,
            ramp_up,
            correctness,
            bus_factor,
            responsiveness,
            compatibility,
            net,
        };
        r.scores_bounded();
        r
    }

    /// Every score of the record lies in [0, 1].
    pub fn scores_bounded(&self)
        ensures
            scores_in_unit_range(self@),
    {
        proof {
            use_type_invariant(&self.ramp_up);
            Score::lemma_in_unit_range(self.ramp_up);
            use_type_invariant(&self.correctness);
            Score::lemma_in_unit_range(self.correctness);
            use_type_invariant(&self.bus_factor);
            Score::lemma_in_unit_range(self.bus_factor);
            use_type_invariant(&self.responsiveness);
            Score::lemma_in_unit_range(self.responsiveness);
            use_type_invariant(&self.compatibility);
            Score::lemma_in_unit_range(self.compatibility);
            use_type_invariant(&self.net);
            Score::lemma_in_unit_range(self.net);
        }
    }

    /// The URL the package was given by.
    pub fn url(&self) -> (r: &str)
        ensures
            r@ == self@.url,
    {
        self.url.as_str()
    }

    /// The net score.
    pub fn net_score(&self) -> (r: &Score)
        ensures
            r@ == self@.net,
    {
        &self.net
    }

    /// The ramp-up time score.
    pub fn ramp_up(&self) -> (r: &Score)
        ensures
            r@ == self@.ramp_up,
    {
        &self.ramp_up
    }

    /// The correctness score.
    pub fn correctness(&self) -> (r: &Score)
        ensures
            r@ == self@.correctness,
    {
        &self.correctness
    }

    /// The bus factor score.
    pub fn bus_factor(&self) -> (r: &Score)
        ensures
            r@ == self@.bus_factor,
    {
        &self.bus_factor
    }

    /// The responsiveness score.
    pub fn responsiveness(&self) -> (r: &Score)
        ensures
            r@ == self@.responsiveness,
    {
        &self.responsiveness
    }

    /// The license compatibility score.
    pub fn compatibility(&self) -> (r: &Score)
        ensures
            r@ == self@.compatibility,
    {
        &self.compatibility
    }
}

/// The index of the first record with the highest net score.
fn first_best_index(v: &Vec<ScoreRecord>) -> (r: usize)
    requires
        v@.len() > 0,
    ensures
        r == first_best(record_views(v@), v@.len() as int),
{
    let ghost s = record_views(v@);
    let mut best: usize = 0;
    let mut i: usize = 1;
    while i < v.len()
        invariant
            1 <= i <= v@.len(),
            s == record_views(v@),
            best == first_best(s, i as int),
        decreases v@.len() - i,
    {
        proof {
            lemma_first_best(s, i as int);
        }
        if v[i].net_score().millionths() > v[best].net_score().millionths() {
            best = i;
        }
        i += 1;
    }
    best
}

/// The records in the report's order.
pub fn rank(records: Vec<ScoreRecord>) -> (r: Vec<ScoreRecord>)
    ensures
        record_views(r@) == ranked(record_views(records@)),
{
    let ghost all = record_views(records@);
    let mut rest = records;
    let mut out: Vec<ScoreRecord> = Vec::new();
    proof {
        assert(record_views(out@) + ranked(record_views(rest@)) =~= ranked(all));
    }
    while rest.len() > 0
        invariant
            record_views(out@) + ranked(record_views(rest@)) == ranked(all),
        decreases rest@.len(),
    {
        let ghost before = record_views(rest@);
        let i = first_best_index(&rest);
        proof {
            lemma_first_best(before, before.len() as int);
        }
        let x = rest.remove(i);
        proof {
            assert(record_views(rest@) =~= before.remove(i as int));
            assert(ranked(before) == seq![x@] + ranked(record_views(rest@)));
        }
        let ghost out_before = record_views(out@);
        out.push(x);
        proof {
            assert(record_views(out@) =~= out_before.push(x@));
            assert(record_views(out@) + ranked(record_views(rest@)) =~= out_before + ranked(
                before,
            ));
        }
    }
    proof {
        assert(record_views(rest@) =~= Seq::<RecordView>::empty());
        assert(record_views(out@) + ranked(record_views(rest@)) =~= record_views(out@));
    }
    out
}

} // verus!
