//! Provider-independent, replayable advisory decisions. No executable model actions.
use vstd::prelude::*;

use crate::events::{Event, EventView};
use crate::ieee;
use crate::ieee::{Real, RealView};
use crate::jev;
use crate::jev::{Category, Importance, Severity};
use crate::json;
use crate::json::{Fields, Items, Json, JsonView};

verus! {

/// What is done with evidence that cannot be decided on.
#[derive(Clone, Copy, Debug, PartialEq, Eq, Structural)]
pub enum Abstention {
    Record,
    Review,
}

/// What is done with evidence.
#[derive(Clone, Copy, Debug, PartialEq, Eq, Structural)]
pub enum Decision {
    Ignore,
    Abstain,
    Review,
    Notify,
}

pub open spec fn abstention_name(a: Abstention) -> Seq<char> {
    match a {
        Abstention::Record => "record"@,
        Abstention::Review => "review"@,
    }
}

pub open spec fn decision_name(d: Decision) -> Seq<char> {
    match d {
        Decision::Ignore => "ignore"@,
        Decision::Abstain => "abstain"@,
        Decision::Review => "review"@,
        Decision::Notify => "notify"@,
    }
}

impl Abstention {
    pub fn label(self) -> (r: &'static str)
        ensures
            r@ == abstention_name(self),
    {
        match self {
            Abstention::Record => "record",
            Abstention::Review => "review",
        }
    }
}

impl Decision {
    pub fn label(self) -> (r: &'static str)
        ensures
            r@ == decision_name(self),
    {
        match self {
            Decision::Ignore => "ignore",
            Decision::Abstain => "abstain",
            Decision::Review => "review",
            Decision::Notify => "notify",
        }
    }
}

/// The rules by which evidence is decided on.
pub struct Policy {
    pub categories: Vec<Category>,
    pub severities: Vec<Severity>,
    pub min_confidence: Real,
    pub cooldown_seconds: i64,
    pub recurrence_window_seconds: i64,
    pub recurrence_count: u32,
    pub max_escalation: u32,
    pub abstention: Abstention,
}

#[verifier::ext_equal]
pub struct PolicyView {
    pub categories: Seq<Category>,
    pub severities: Seq<Severity>,
    pub min_confidence: RealView,
    pub cooldown_seconds: i64,
    pub recurrence_window_seconds: i64,
    pub recurrence_count: u32,
    pub max_escalation: u32,
    pub abstention: Abstention,
}

fn copy_categories(v: &Vec<Category>) -> (r: Vec<Category>)
    ensures
        r@ == v@,
{
    let mut r: Vec<Category> = Vec::new();
    let mut i: usize = 0;
    while i < v.len()
        invariant
            i <= v@.len(),
            r@ == v@.take(i as int),
        decreases v@.len() - i,
    {
        r.push(v[i]);
        assert(r@ =~= v@.take(i + 1));
        i += 1;
    }
    assert(r@ =~= v@);
    r
}

fn copy_severities(v: &Vec<Severity>) -> (r: Vec<Severity>)
    ensures
        r@ == v@,
{
    let mut r: Vec<Severity> = Vec::new();
    let mut i: usize = 0;
    while i < v.len()
        invariant
            i <= v@.len(),
            r@ == v@.take(i as int),
        decreases v@.len() - i,
    {
        r.push(v[i]);
        assert(r@ =~= v@.take(i + 1));
        i += 1;
    }
    assert(r@ =~= v@);
    r
}

impl Clone for Policy {
    fn clone(&self) -> (r: Self)
        ensures
            r@ == self@,
    {
        Policy {
            categories: copy_categories(&self.categories),
            severities: copy_severities(&self.severities),
            min_confidence: self.min_confidence.clone(),
            cooldown_seconds: self.cooldown_seconds,
            recurrence_window_seconds: self.recurrence_window_seconds,
            recurrence_count: self.recurrence_count,
            max_escalation: self.max_escalation,
            abstention: self.abstention,
        }
    }
}

/// The least confidence of the default policy: 0.85.
pub const MIN_CONFIDENCE: u64 = 0x3feb_3333_3333_3333;

pub open spec fn default_policy() -> PolicyView {
    PolicyView {
        categories: seq![Category::Security, Category::Fraud],
        severities: seq![Severity::Degraded, Severity::Impact, Severity::Outage],
        min_confidence: RealView { bits: MIN_CONFIDENCE, text: "0.85"@ },
        cooldown_seconds: 300,
        recurrence_window_seconds: 900,
        recurrence_count: 5,
        max_escalation: 8,
        abstention: Abstention::Review,
    }
}

impl Default for Policy {
    fn default() -> (r: Self)
        ensures
            r@ == default_policy(),
    {
        let mut categories: Vec<Category> = Vec::new();
        categories.push(Category::Security);
        categories.push(Category::Fraud);
        let mut severities: Vec<Severity> = Vec::new();
        severities.push(Severity::Degraded);
        severities.push(Severity::Impact);
        severities.push(Severity::Outage);
        let r = Policy {
            categories,
            severities,
            min_confidence: Real { bits: MIN_CONFIDENCE, text: "0.85".to_owned() },
            cooldown_seconds: 300,
            recurrence_window_seconds: 900,
            recurrence_count: 5,
            max_escalation: 8,
            abstention: Abstention::Review,
        };
        assert(r@ =~= default_policy());
        r
    }
}

/// Whether a judgment can be relied on: it is complete, definite, and on evidence that was not cut
/// short.
pub open spec fn reliable(e: EventView) -> bool {
    let j = e.judgment;
    &&& !e.truncated
    &&& j.analysis_error is None
    &&& j.importance != Importance::Unknown
    &&& j.category != Category::Unknown
    &&& j.severity != Severity::Unknown
    &&& j.importance_confidence matches Some(c) && ieee::in_unit(c.bits)
    &&& j.category_confidence matches Some(c) && ieee::in_unit(c.bits)
    &&& j.severity_confidence matches Some(c) && ieee::in_unit(c.bits)
}

fn sure(c: &Option<Real>) -> (r: bool)
    ensures
        r == (ieee::optional_view(*c) matches Some(x) && ieee::in_unit(x.bits)),
{
    match c {
        Some(x) => ieee::is_in_unit(x.bits),
        None => false,
    }
}

pub fn cacheable(e: &Event) -> (r: bool)
    ensures
        r == reliable(e@),
{
    let j = &e.judgment;
    !e.truncated && j.analysis_error.is_none() && j.importance != Importance::Unknown && j.category
        != Category::Unknown && j.severity != Severity::Unknown && sure(&j.importance_confidence)
        && sure(&j.category_confidence) && sure(&j.severity_confidence)
}

/// Whether a confidence is missing or below a bound.
pub open spec fn doubtful(c: Option<RealView>, least: u64) -> bool {
    match c {
        Some(x) => ieee::less(x.bits, least),
        None => true,
    }
}

fn doubts(c: &Option<Real>, least: u64) -> (r: bool)
    ensures
        r == doubtful(ieee::optional_view(*c), least),
{
    match c {
        Some(x) => ieee::is_less(x.bits, least),
        None => true,
    }
}

impl PolicyView {
    pub open spec fn valid(self) -> bool {
        &&& 1 <= self.categories.len() <= 9
        &&& 1 <= self.severities.len() <= 5
        &&& !self.categories.contains(Category::Unknown)
        &&& !self.severities.contains(Severity::Unknown)
        &&& ieee::in_unit(self.min_confidence.bits)
        &&& 1 <= self.cooldown_seconds <= 86400
        &&& 1 <= self.recurrence_window_seconds <= 604800
        &&& 2 <= self.recurrence_count <= 100000
        &&& 1 <= self.max_escalation <= 32
    }

    /// What is decided where the evidence does not allow a decision.
    pub open spec fn undecided(self) -> Decision {
        match self.abstention {
            Abstention::Record => Decision::Abstain,
            Abstention::Review => Decision::Review,
        }
    }

    pub open spec fn decided(self, e: EventView) -> Decision {
        let j = e.judgment;
        if !reliable(e) || j.importance == Importance::Uncertain || doubtful(
            j.importance_confidence,
            self.min_confidence.bits,
        ) || doubtful(j.category_confidence, self.min_confidence.bits) || doubtful(
            j.severity_confidence,
            self.min_confidence.bits,
        ) {
            self.undecided()
        } else if j.importance == Importance::Important && self.categories.contains(j.category)
            && self.severities.contains(j.severity) {
            Decision::Notify
        } else {
            Decision::Ignore
        }
    }
}

fn has_category(v: &Vec<Category>, c: Category) -> (r: bool)
    ensures
        r == v@.contains(c),
{
    let mut i: usize = 0;
    while i < v.len()
        invariant
            i <= v@.len(),
            forall|k: int| 0 <= k < i ==> v@[k] != c,
        decreases v@.len() - i,
    {
        if v[i] == c {
            assert(v@[i as int] == c);
            return true;
        }
        i += 1;
    }
    false
}

fn has_severity(v: &Vec<Severity>, c: Severity) -> (r: bool)
    ensures
        r == v@.contains(c),
{
    let mut i: usize = 0;
    while i < v.len()
        invariant
            i <= v@.len(),
            forall|k: int| 0 <= k < i ==> v@[k] != c,
        decreases v@.len() - i,
    {
        if v[i] == c {
            assert(v@[i as int] == c);
            return true;
        }
        i += 1;
    }
    false
}

impl Policy {
    pub open spec fn view(&self) -> PolicyView {
        PolicyView {
            categories: self.categories@,
            severities: self.severities@,
            min_confidence: self.min_confidence@,
            cooldown_seconds: self.cooldown_seconds,
            recurrence_window_seconds: self.recurrence_window_seconds,
            recurrence_count: self.recurrence_count,
            max_escalation: self.max_escalation,
            abstention: self.abstention,
        }
    }

    pub fn validate(&self) -> (r: Result<(), &'static str>)
        ensures
            match r {
                Ok(()) => self@.valid(),
                Err(e) => !self@.valid() && e@ == "Invalid controller policy"@,
            },
    {
        if self.categories.len() > 9 || self.severities.len() > 5 || self.categories.len() == 0
            || has_category(&self.categories, Category::Unknown) || self.severities.len() == 0
            || has_severity(&self.severities, Severity::Unknown) || !ieee::is_in_unit(
            self.min_confidence.bits,
        ) || self.cooldown_seconds < 1 || self.cooldown_seconds > 86400
            || self.recurrence_window_seconds < 1 || self.recurrence_window_seconds > 604800
            || self.recurrence_count < 2 || self.recurrence_count > 100000 || self.max_escalation
            < 1 || self.max_escalation > 32 {
            return Err("Invalid controller policy");
        }
        Ok(())
    }

    pub fn decide(&self, event: &Event) -> (r: Decision)
        ensures
            r == self@.decided(event@),
    {
        let j = &event.judgment;
        let least = self.min_confidence.bits;
        if !cacheable(event) || j.importance == Importance::Uncertain || doubts(
            &j.importance_confidence,
            least,
        ) || doubts(&j.category_confidence, least) || doubts(&j.severity_confidence, least) {
            return match self.abstention {
                Abstention::Record => Decision::Abstain,
                Abstention::Review => Decision::Review,
            };
        }
        if j.importance == Importance::Important && has_category(&self.categories, j.category)
            && has_severity(&self.severities, j.severity) {
            Decision::Notify
        } else {
            Decision::Ignore
        }
    }
}

/// Nobody is notified on weak grounds: a notification is decided only on whole evidence, for an
/// important event of a listed category and severity, with every confidence between zero and one
/// and none below the bound.
pub proof fn notify_takes_strong_grounds(p: PolicyView, e: EventView)
    requires
        p.decided(e) == Decision::Notify,
    ensures
        !e.truncated,
        e.judgment.analysis_error is None,
        e.judgment.importance == Importance::Important,
        p.categories.contains(e.judgment.category),
        p.severities.contains(e.judgment.severity),
        e.judgment.importance_confidence matches Some(c) && ieee::in_unit(c.bits) && !ieee::less(
            c.bits,
            p.min_confidence.bits,
        ),
        e.judgment.category_confidence matches Some(c) && ieee::in_unit(c.bits) && !ieee::less(
            c.bits,
            p.min_confidence.bits,
        ),
        e.judgment.severity_confidence matches Some(c) && ieee::in_unit(c.bits) && !ieee::less(
            c.bits,
            p.min_confidence.bits,
        ),
{
}

/// Evidence that was cut short, or on which there is no judgment, is never ignored: it is recorded
/// or put before a human, as the policy says.
pub proof fn missing_judgment_is_never_ignored(p: PolicyView, e: EventView)
    requires
        e.truncated || e.judgment.analysis_error is Some || e.judgment.importance
            == Importance::Unknown || e.judgment.importance == Importance::Uncertain,
    ensures
        p.decided(e) == p.undecided(),
        p.decided(e) != Decision::Ignore,
        p.decided(e) != Decision::Notify,
{
}

/// A decision is made of the policy, the judgment and whether the evidence was cut short, and of
/// nothing else, so it can be replayed.
pub proof fn decisions_are_replayable(p: PolicyView, a: EventView, b: EventView)
    requires
        a.judgment == b.judgment,
        a.truncated == b.truncated,
    ensures
        p.decided(a) == p.decided(b),
{
}

/// The default policy is valid.
pub proof fn default_is_valid()
    ensures
        default_policy().valid(),
{
    let p = default_policy();
    assert(!p.categories.contains(Category::Unknown)) by {
        assert forall|i: int| 0 <= i < p.categories.len() implies p.categories[i]
            != Category::Unknown by {}
    }
    assert(!p.severities.contains(Severity::Unknown)) by {
        assert forall|i: int| 0 <= i < p.severities.len() implies p.severities[i]
            != Severity::Unknown by {}
    }
}

pub open spec fn category_list(v: Seq<Category>) -> JsonView {
    JsonView::List(Seq::new(v.len(), |i: int| JsonView::Text(jev::category_name(v[i]))))
}

pub open spec fn severity_list(v: Seq<Severity>) -> JsonView {
    JsonView::List(Seq::new(v.len(), |i: int| JsonView::Text(jev::severity_name(v[i]))))
}

/// A policy as a JSON object.
pub open spec fn policy_json(p: PolicyView) -> JsonView {
    JsonView::Object(
        seq![].push(("categories"@, category_list(p.categories))).push(
            ("severities"@, severity_list(p.severities)),
        ).push(("min_confidence"@, json::real_number(p.min_confidence))).push(
            ("cooldown_seconds"@, json::integer(p.cooldown_seconds as int)),
        ).push(
            (
                "recurrence_window_seconds"@,
                json::integer(p.recurrence_window_seconds as int),
            ),
        ).push(("recurrence_count"@, json::integer(p.recurrence_count as int))).push(
            ("max_escalation"@, json::integer(p.max_escalation as int)),
        ).push(("abstention"@, JsonView::Text(abstention_name(p.abstention)))),
    )
}

impl Policy {
    /// The policy as a JSON object.
    pub fn json(&self) -> (r: Json)
        ensures
            r@ == policy_json(self@),
    {
        let mut categories = Items::new();
        let mut i: usize = 0;
        while i < self.categories.len()
            invariant
                i <= self.categories@.len(),
                categories@ == Seq::new(
                    i as nat,
                    |k: int| JsonView::Text(jev::category_name(self.categories@[k])),
                ),
            decreases self.categories@.len() - i,
        {
            categories = categories.with(json::string(self.categories[i].label()));
            assert(categories@ =~= Seq::new(
                (i + 1) as nat,
                |k: int| JsonView::Text(jev::category_name(self.categories@[k])),
            ));
            i += 1;
        }
        let mut severities = Items::new();
        let mut i: usize = 0;
        while i < self.severities.len()
            invariant
                i <= self.severities@.len(),
                severities@ == Seq::new(
                    i as nat,
                    |k: int| JsonView::Text(jev::severity_name(self.severities@[k])),
                ),
            decreases self.severities@.len() - i,
        {
            severities = severities.with(json::string(self.severities[i].label()));
            assert(severities@ =~= Seq::new(
                (i + 1) as nat,
                |k: int| JsonView::Text(jev::severity_name(self.severities@[k])),
            ));
            i += 1;
        }
        Fields::new().with("categories", categories.list()).with(
            "severities",
            severities.list(),
        ).with("min_confidence", json::number(&self.min_confidence)).with(
            "cooldown_seconds",
            json::signed(self.cooldown_seconds),
        ).with("recurrence_window_seconds", json::signed(self.recurrence_window_seconds)).with(
            "recurrence_count",
            json::unsigned(self.recurrence_count as u64),
        ).with("max_escalation", json::unsigned(self.max_escalation as u64)).with(
            "abstention",
            json::string(self.abstention.label()),
        ).object()
    }
}

}
