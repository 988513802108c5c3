//! Prometheus metric families, each with one label.
//!
//! A family is a map from label values to numbers. Here it is held in a private field, made only
//! together with its registration and never handed out: the registry that exports it has the only
//! other handle, and reads through it.

use vstd::prelude::*;

verus! {

#[verifier::external_type_specification]
#[verifier::external_body]
pub struct ExRegistry(prometheus::Registry);

#[verifier::external_type_specification]
#[verifier::external_body]
pub struct ExPrometheusError(prometheus::Error);

/// A family of counters.
#[verifier::external_body]
pub struct CounterFamily {
    inner: prometheus::IntCounterVec,
}

/// A family of gauges.
#[verifier::external_body]
pub struct GaugeFamily {
    inner: prometheus::IntGaugeVec,
}

/// What the counters of a family stand at, by label value.
pub uninterp spec fn counter_values(family: CounterFamily) -> Map<Seq<char>, u64>;

/// The name, the help text and the label names that a family of counters was made with.
pub uninterp spec fn counter_desc(family: CounterFamily) -> (Seq<char>, Seq<char>, Seq<Seq<char>>);

/// What the gauges of a family stand at, by label value.
pub uninterp spec fn gauge_values(family: GaugeFamily) -> Map<Seq<char>, i64>;

/// The name, the help text and the label names that a family of gauges was made with.
pub uninterp spec fn gauge_desc(family: GaugeFamily) -> (Seq<char>, Seq<char>, Seq<Seq<char>>);

/// A letter or an underscore.
pub open spec fn is_letter(c: char) -> bool {
    ('a' <= c && c <= 'z') || ('A' <= c && c <= 'Z') || c == '_'
}

/// A decimal digit.
pub open spec fn is_digit(c: char) -> bool {
    '0' <= c && c <= '9'
}

/// The names that a metric family may have.
pub open spec fn is_metric_name(name: Seq<char>) -> bool {
    &&& name.len() > 0
    &&& !is_digit(name[0])
    &&& forall|i: int|
        0 <= i < name.len() ==> is_letter(#[trigger] name[i]) || is_digit(name[i]) || name[i] == ':'
}

/// The names that a label may have.
pub open spec fn is_label_name(name: Seq<char>) -> bool {
    &&& name.len() > 0
    &&& !is_digit(name[0])
    &&& forall|i: int| 0 <= i < name.len() ==> is_letter(#[trigger] name[i]) || is_digit(name[i])
}

/// A family with one label can be made from these strings.
pub open spec fn is_describable(name: Seq<char>, help: Seq<char>, label: Seq<char>) -> bool {
    is_metric_name(name) && help.len() > 0 && is_label_name(label)
}

/// The label values that the scheduler counts under.
pub open spec fn is_label_value(value: Seq<char>) -> bool {
    ||| value == "sufficient_balance"@
    ||| value == "insufficient_balance"@
    ||| value == "already_scheduled"@
    ||| value == "total"@
    ||| value == "with_reservations"@
    ||| value == "entire_balance_reserved"@
    ||| value == "with_changes"@
    ||| value == "max_amount"@
    ||| value == "entire_balance"@
}

/// The counters once the one under `label` is increased by one. It starts at zero, and wraps at
/// 2^64.
pub open spec fn increased(values: Map<Seq<char>, u64>, label: Seq<char>) -> Map<Seq<char>, u64> {
    let value = if values.contains_key(label) {
        values[label]
    } else {
        0
    };
    values.insert(
        label,
        if value == u64::MAX {
            0
        } else {
            (value + 1) as u64
        },
    )
}

/// What `prometheus::register_int_counter_vec_with_registry` does with a name, a help text and one
/// label: `prometheus::IntCounterVec::new` on `prometheus::Opts::new` makes a family without
/// counters, and `prometheus::Registry::register` takes a handle of it.
///
/// The first of these fails, and the call panics, unless the strings describe a family. Whether the
/// registry takes the family rests on what others have registered there: of that nothing is said.
#[verifier::external_body]
fn register_counter_family(
    name: &str,
    help: &str,
    label: &str,
    registry: &prometheus::Registry,
) -> (result: Result<CounterFamily, prometheus::Error>)
    requires
        is_describable(name@, help@, label@),
    ensures
        result matches Ok(family) ==> counter_desc(family) == (name@, help@, seq![label@]),
        result matches Ok(family) ==> counter_values(family) == (Map::<Seq<char>, u64>::empty()),
{
    let opts = prometheus::Opts::new(name, help);
    let inner = prometheus::IntCounterVec::new(opts, &[label]).unwrap();
    registry.register(Box::new(inner.clone()))?;
    Ok(CounterFamily { inner })
}

/// What `prometheus::register_int_gauge_vec_with_registry` does with a name, a help text and one
/// label: `prometheus::IntGaugeVec::new` on `prometheus::Opts::new` makes a family without gauges,
/// and `prometheus::Registry::register` takes a handle of it.
///
/// The first of these fails, and the call panics, unless the strings describe a family. Whether the
/// registry takes the family rests on what others have registered there: of that nothing is said.
#[verifier::external_body]
fn register_gauge_family(
    name: &str,
    help: &str,
    label: &str,
    registry: &prometheus::Registry,
) -> (result: Result<GaugeFamily, prometheus::Error>)
    requires
        is_describable(name@, help@, label@),
    ensures
        result matches Ok(family) ==> gauge_desc(family) == (name@, help@, seq![label@]),
        result matches Ok(family) ==> gauge_values(family) == (Map::<Seq<char>, i64>::empty()),
{
    let opts = prometheus::Opts::new(name, help);
    let inner = prometheus::IntGaugeVec::new(opts, &[label]).unwrap();
    registry.register(Box::new(inner.clone()))?;
    Ok(GaugeFamily { inner })
}

/// Make the call and hand on its answer, which is then known to be one that `register` gave for
/// these arguments.
fn ask<F, T>(
    register: F,
    name: &str,
    help: &str,
    label: &str,
    registry: &prometheus::Registry,
) -> (answer: Result<T, prometheus::Error>) where
    F: Fn(&str, &str, &str, &prometheus::Registry) -> Result<T, prometheus::Error>,

    requires
        call_requires(register, (name, help, label, registry)),
    ensures
        call_ensures(register, (name, help, label, registry), answer),
{
    register(name, help, label, registry)
}

/// The answer is one that the registry gave when it was offered this family of counters.
pub closed spec fn counters_answered(
    registry: &prometheus::Registry,
    name: &str,
    help: &str,
    label: &str,
    answer: Result<CounterFamily, prometheus::Error>,
) -> bool {
    call_ensures(register_counter_family, (name, help, label, registry), answer)
}

/// The answer is one that the registry gave when it was offered this family of gauges.
pub closed spec fn gauges_answered(
    registry: &prometheus::Registry,
    name: &str,
    help: &str,
    label: &str,
    answer: Result<GaugeFamily, prometheus::Error>,
) -> bool {
    call_ensures(register_gauge_family, (name, help, label, registry), answer)
}

/// A registry to which families are offered. It is reached only through `offer_counters` and
/// `offer_gauges`, so the record holds the name of every family that was offered here, in order.
pub struct Registrar<'a> {
    registry: &'a prometheus::Registry,
    offers: Ghost<Seq<Seq<char>>>,
}

impl<'a> Registrar<'a> {
    /// The registry to which the families are offered.
    pub closed spec fn registry(&self) -> &'a prometheus::Registry {
        self.registry
    }

    /// The names of the families that were offered, in order.
    pub closed spec fn offers(&self) -> Seq<Seq<char>> {
        self.offers@
    }

    pub fn new(registry: &'a prometheus::Registry) -> (registrar: Registrar<'a>)
        ensures
            registrar.registry() == registry,
            registrar.offers() == Seq::<Seq<char>>::empty(),
    {
        Registrar { registry, offers: Ghost(Seq::empty()) }
    }

    /// Make a family of counters and offer it to the registry.
    pub fn offer_counters(&mut self, name: &str, help: &str, label: &str) -> (answer: Result<
        CounterFamily,
        prometheus::Error,
    >)
        requires
            is_describable(name@, help@, label@),
        ensures
            counters_answered(old(self).registry(), name, help, label, answer),
            answer matches Ok(family) ==> counter_desc(family) == (name@, help@, seq![label@]),
            answer matches Ok(family) ==> counter_values(family) == Map::<Seq<char>, u64>::empty(),
            final(self).registry() == old(self).registry(),
            final(self).offers() == old(self).offers().push(name@),
    {
        proof {
            self.offers@ = self.offers@.push(name@);
        }
        ask(register_counter_family, name, help, label, self.registry)
    }

    /// Make a family of gauges and offer it to the registry.
    pub fn offer_gauges(&mut self, name: &str, help: &str, label: &str) -> (answer: Result<
        GaugeFamily,
        prometheus::Error,
    >)
        requires
            is_describable(name@, help@, label@),
        ensures
            gauges_answered(old(self).registry(), name, help, label, answer),
            answer matches Ok(family) ==> gauge_desc(family) == (name@, help@, seq![label@]),
            answer matches Ok(family) ==> gauge_values(family) == Map::<Seq<char>, i64>::empty(),
            final(self).registry() == old(self).registry(),
            final(self).offers() == old(self).offers().push(name@),
    {
        proof {
            self.offers@ = self.offers@.push(name@);
        }
        ask(register_gauge_family, name, help, label, self.registry)
    }
}

/// `with_label_values` of `prometheus::IntCounterVec`, then `inc` on the counter: increases the
/// counter under `label`, which is made first where there is none, and leaves the others alone.
///
/// The crate files counters under a 64-bit FNV hash of the label value. The values of
/// `is_label_value` have different hashes, so each has a counter of its own.
#[verifier::external_body]
pub(crate) fn inc_counter(family: &mut CounterFamily, label: &str)
    requires
        counter_desc(*old(family)).2.len() == 1,
        is_label_value(label@),
    ensures
        counter_desc(*final(family)) == counter_desc(*old(family)),
        counter_values(*final(family)) == increased(counter_values(*old(family)), label@),
{
    family.inner.with_label_values(&[label]).inc()
}

/// `with_label_values` of `prometheus::IntGaugeVec`, then `set` on the gauge: sets the gauge under
/// `label`, which is made first where there is none, and leaves the others alone.
///
/// The crate files gauges under a 64-bit FNV hash of the label value. The values of
/// `is_label_value` have different hashes, so each has a gauge of its own.
#[verifier::external_body]
pub(crate) fn set_gauge(family: &mut GaugeFamily, label: &str, value: i64)
    requires
        gauge_desc(*old(family)).2.len() == 1,
        is_label_value(label@),
    ensures
        gauge_desc(*final(family)) == gauge_desc(*old(family)),
        gauge_values(*final(family)) == gauge_values(*old(family)).insert(label@, value),
{
    family.inner.with_label_values(&[label]).set(value)
}

} // verus!
