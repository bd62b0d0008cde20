//! Matching of pods and containers: by regular expression on names, by label
//! selector, and by conjunction, disjunction and negation of other matchers.
use vstd::prelude::*;
use crate::pod::{ContainerInfo, PodInfo, PodView, label_value, pairs_view};
use crate::keyed::{keyed_map, unique_keys, lemma_keyed_map_members, lemma_keyed_map_update};

verus! {

/// Decides whether pods, and containers of pods, are selected.
pub trait Matcher: Send + Sync {
    /// Whether this matcher selects the pod.
    spec fn pod_matches(&self, pod: PodView) -> bool;

    /// Whether this matcher selects the container (by name) of the pod.
    spec fn container_matches(&self, pod: PodView, container: Seq<char>) -> bool;

    fn matches_pod(&self, pod: &PodInfo) -> (b: bool)
        ensures
            b == self.pod_matches(pod@),
    ;

    fn matches_container(&self, pod: &PodInfo, container: &ContainerInfo) -> (b: bool)
        ensures
            b == self.container_matches(pod@, container@),
    ;
}

// ---------------------------------------------------------------------------
// Regular expressions
// ---------------------------------------------------------------------------
#[verifier::external_type_specification]
#[verifier::external_body]
pub struct ExRegex(regex::Regex);

#[verifier::external_type_specification]
#[verifier::external_body]
pub struct ExRegexError(regex::Error);

/// Whether `regex::Regex::new` accepts the pattern.
pub uninterp spec fn regex_compiles(pattern: Seq<char>) -> bool;

/// Whether the regular expression `pattern` matches somewhere in `haystack`
/// (`regex::Regex::is_match`).
pub uninterp spec fn regex_finds(pattern: Seq<char>, haystack: Seq<char>) -> bool;

/// `regex::Regex::new`: compiles the pattern; it succeeds exactly on the
/// patterns that `regex_compiles` names.
#[verifier::external_body]
fn compile_regex(pattern: &str) -> (r: Result<regex::Regex, regex::Error>)
    ensures
        r is Ok <==> regex_compiles(pattern@),
{
    regex::Regex::new(pattern)
}

/// `regex::Regex::is_match` on the regular expression that the matcher
/// compiled from its pattern: the result is `regex_finds(pattern, haystack)`.
/// That the matcher's compiled expression is the one built from its pattern
/// holds because `RegexMatcher::new` is its only constructor.
#[verifier::external_body]
fn regex_is_match(m: &RegexMatcher, haystack: &str) -> (b: bool)
    ensures
        b == regex_finds(m@, haystack@),
{
    m.regex.is_match(haystack)
}

/// A pattern that `regex::Regex::new` refused, with the reason.
pub struct PatternError {
    pub pattern: String,
    pub cause: regex::Error,
}

/// Selects pods and containers whose name the regular expression matches.
pub struct RegexMatcher {
    regex: regex::Regex,
    pattern: String,
}

impl View for RegexMatcher {
    type V = Seq<char>;

    /// The pattern the matcher was compiled from.
    closed spec fn view(&self) -> Seq<char> {
        self.pattern@
    }
}

impl RegexMatcher {
    /// Compiles `pattern`; fails exactly when the regular expression engine
    /// refuses it.
    pub fn new(pattern: &str) -> (r: Result<Self, PatternError>)
        ensures
            r is Ok <==> regex_compiles(pattern@),
            r matches Ok(m) ==> m@ == pattern@,
            r matches Err(e) ==> e.pattern@ == pattern@,
    {
        match compile_regex(pattern) {
            Ok(regex) => Ok(RegexMatcher { regex, pattern: pattern.to_string() }),
            Err(cause) => Err(PatternError { pattern: pattern.to_string(), cause }),
        }
    }

    /// The pattern the matcher was compiled from.
    pub fn pattern(&self) -> (s: &str)
        ensures
            s@ == self@,
    {
        self.pattern.as_str()
    }
}

impl Matcher for RegexMatcher {
    open spec fn pod_matches(&self, pod: PodView) -> bool {
        match pod.name {
            Some(name) => regex_finds(self@, name),
            None => false,
        }
    }

    open spec fn container_matches(&self, pod: PodView, container: Seq<char>) -> bool {
        regex_finds(self@, container)
    }

    fn matches_pod(&self, pod: &PodInfo) -> (b: bool) {
        match &pod.name {
            Some(name) => regex_is_match(self, name.as_str()),
            None => false,
        }
    }

    fn matches_container(&self, pod: &PodInfo, container: &ContainerInfo) -> (b: bool) {
        regex_is_match(self, container.name.as_str())
    }
}

// ---------------------------------------------------------------------------
// Label selectors
// ---------------------------------------------------------------------------
/// Whether `labels` hold `key` with value `value`.
fn has_label(labels: &Vec<(String, String)>, key: &String, value: &String) -> (b: bool)
    ensures
        b == (label_value(pairs_view(labels@), key@) == Some(value@)),
{
    let mut i: usize = 0;
    assert(pairs_view(labels@).skip(0) =~= pairs_view(labels@));
    while i < labels.len()
        invariant
            i <= labels@.len(),
            label_value(pairs_view(labels@), key@) == label_value(
                pairs_view(labels@).skip(i as int),
                key@,
            ),
        decreases labels@.len() - i,
    {
        let ghost rest = pairs_view(labels@).skip(i as int);
        assert(rest.drop_first() =~= pairs_view(labels@).skip(i + 1));
        assert(rest[0] == (labels@[i as int].0@, labels@[i as int].1@));
        let (k, v) = &labels[i];
        if *k == *key {
            return *v == *value;
        }
        i = i + 1;
    }
    false
}

/// Selects pods that carry all the labels of the selector, each with the
/// selector's value.
pub struct LabelSelectorMatcher {
    labels: Vec<(String, String)>,
}

impl View for LabelSelectorMatcher {
    type V = Map<Seq<char>, Seq<char>>;

    /// The required labels, key to value.
    closed spec fn view(&self) -> Map<Seq<char>, Seq<char>> {
        keyed_map(pairs_view(self.labels@))
    }
}

impl LabelSelectorMatcher {
    /// The stored pairs have distinct keys.
    #[verifier::type_invariant]
    closed spec fn keys_distinct(&self) -> bool {
        unique_keys(pairs_view(self.labels@))
    }

    /// A selector requiring each given label; where a key is given twice, the
    /// later value counts.
    pub fn new(labels: Vec<(String, String)>) -> (m: Self)
        ensures
            m@ == keyed_map(pairs_view(labels@)),
    {
        let mut acc: Vec<(String, String)> = Vec::new();
        let mut i: usize = 0;
        assert(labels@.take(0) =~= Seq::<(String, String)>::empty());
        assert(pairs_view(acc@) =~= pairs_view(labels@.take(0)));
        while i < labels.len()
            invariant
                i <= labels@.len(),
                unique_keys(pairs_view(acc@)),
                keyed_map(pairs_view(acc@)) == keyed_map(pairs_view(labels@.take(i as int))),
            decreases labels@.len() - i,
        {
            let (k, v) = &labels[i];
            let ghost before = pairs_view(acc@);
            assert(pairs_view(labels@.take(i + 1)).drop_last() =~= pairs_view(
                labels@.take(i as int),
            ));
            assert(pairs_view(labels@.take(i + 1)).last() == (k@, v@));
            let mut j: usize = 0;
            while j < acc.len() && !(acc[j].0 == *k)
                invariant
                    j <= acc@.len(),
                    before == pairs_view(acc@),
                    forall|t: int| 0 <= t < j ==> before[t].0 != k@,
                decreases acc@.len() - j,
            {
                j = j + 1;
            }
            if j < acc.len() {
                proof {
                    lemma_keyed_map_update(before, j as int, v@);
                }
                acc.set(j, (k.clone(), v.clone()));
                assert(pairs_view(acc@) =~= before.update(j as int, (before[j as int].0, v@)));
            } else {
                acc.push((k.clone(), v.clone()));
                assert(pairs_view(acc@) =~= before.push((k@, v@)));
                assert(pairs_view(acc@).drop_last() =~= before);
            }
            i = i + 1;
        }
        assert(labels@.take(labels@.len() as int) =~= labels@);
        LabelSelectorMatcher { labels: acc }
    }
}

/// Whether a pod's labels carry every required label with its value; a pod
/// without labels satisfies no selector.
pub open spec fn labels_satisfy(
    required: Map<Seq<char>, Seq<char>>,
    labels: Option<Seq<(Seq<char>, Seq<char>)>>,
) -> bool {
    match labels {
        Some(labels) => forall|k: Seq<char>| #[trigger]
            required.contains_key(k) ==> label_value(labels, k) == Some(required[k]),
        None => false,
    }
}

impl Matcher for LabelSelectorMatcher {
    open spec fn pod_matches(&self, pod: PodView) -> bool {
        labels_satisfy(self@, pod.labels)
    }

    /// Label selectors apply to pods, not to single containers.
    open spec fn container_matches(&self, pod: PodView, container: Seq<char>) -> bool {
        false
    }

    fn matches_pod(&self, pod: &PodInfo) -> (b: bool) {
        let pod_labels = match &pod.labels {
            Some(l) => l,
            None => {
                return false;
            },
        };
        proof {
            use_type_invariant(self);
        }
        let ghost sel = pairs_view(self.labels@);
        proof {
            lemma_keyed_map_members(sel);
            assert(self@ == keyed_map(sel));
        }
        let mut i: usize = 0;
        while i < self.labels.len()
            invariant
                i <= self.labels@.len(),
                sel == pairs_view(self.labels@),
                self@ == keyed_map(sel),
                unique_keys(sel),
                pod@.labels == Some(pairs_view(pod_labels@)),
                forall|t: int|
                    0 <= t < i ==> label_value(pairs_view(pod_labels@), #[trigger] sel[t].0)
                        == Some(sel[t].1),
            decreases self.labels@.len() - i,
        {
            let (k, v) = &self.labels[i];
            if !has_label(pod_labels, k, v) {
                assert(sel[i as int] == (k@, v@));
                proof {
                    lemma_keyed_map_members(sel);
                }
                assert(keyed_map(sel).contains_key(sel[i as int].0));
                assert(self@[k@] == v@);
                assert(pod@.labels == Some(pairs_view(pod_labels@)));
                assert(self@.contains_key(k@) && label_value(pairs_view(pod_labels@), k@) != Some(
                    self@[k@],
                ));
                return false;
            }
            i = i + 1;
        }
        assert forall|k: Seq<char>| #[trigger] self@.contains_key(k) implies label_value(
            pairs_view(pod_labels@),
            k,
        ) == Some(self@[k]) by {
            let t = choose|t: int| 0 <= t < sel.len() && sel[t].0 == k;
            assert(self@.contains_key(sel[t].0));
        }
        true
    }

    fn matches_container(&self, pod: &PodInfo, container: &ContainerInfo) -> (b: bool) {
        false
    }
}

// ---------------------------------------------------------------------------
// Combinations
// ---------------------------------------------------------------------------
/// Selects what every one of a non-empty list of matchers selects.
pub struct AndMatcher(pub Vec<Box<dyn Matcher>>);

/// Selects what at least one of the matchers selects.
pub struct OrMatcher(pub Vec<Box<dyn Matcher>>);

/// Selects what the inner matcher does not select.
pub struct NotMatcher(pub Box<dyn Matcher>);

impl Matcher for AndMatcher {
    open spec fn pod_matches(&self, pod: PodView) -> bool {
        self.0@.len() > 0 && forall|i: int|
            0 <= i < self.0@.len() ==> #[trigger] self.0@[i].pod_matches(pod)
    }

    open spec fn container_matches(&self, pod: PodView, container: Seq<char>) -> bool {
        self.0@.len() > 0 && forall|i: int|
            0 <= i < self.0@.len() ==> #[trigger] self.0@[i].container_matches(pod, container)
    }

    fn matches_pod(&self, pod: &PodInfo) -> (b: bool) {
        if self.0.len() == 0 {
            return false;
        }
        let mut i: usize = 0;
        while i < self.0.len()
            invariant
                i <= self.0@.len(),
                forall|j: int| 0 <= j < i ==> #[trigger] self.0@[j].pod_matches(pod@),
            decreases self.0@.len() - i,
        {
            if !self.0[i].matches_pod(pod) {
                return false;
            }
            i = i + 1;
        }
        true
    }

    fn matches_container(&self, pod: &PodInfo, container: &ContainerInfo) -> (b: bool) {
        if self.0.len() == 0 {
            return false;
        }
        let mut i: usize = 0;
        while i < self.0.len()
            invariant
                i <= self.0@.len(),
                forall|j: int|
                    0 <= j < i ==> #[trigger] self.0@[j].container_matches(pod@, container@),
            decreases self.0@.len() - i,
        {
            if !self.0[i].matches_container(pod, container) {
                return false;
            }
            i = i + 1;
        }
        true
    }
}

impl Matcher for OrMatcher {
    open spec fn pod_matches(&self, pod: PodView) -> bool {
        exists|i: int| 0 <= i < self.0@.len() && #[trigger] self.0@[i].pod_matches(pod)
    }

    open spec fn container_matches(&self, pod: PodView, container: Seq<char>) -> bool {
        exists|i: int|
            0 <= i < self.0@.len() && #[trigger] self.0@[i].container_matches(pod, container)
    }

    fn matches_pod(&self, pod: &PodInfo) -> (b: bool) {
        let mut i: usize = 0;
        while i < self.0.len()
            invariant
                i <= self.0@.len(),
                forall|j: int| 0 <= j < i ==> !#[trigger] self.0@[j].pod_matches(pod@),
            decreases self.0@.len() - i,
        {
            if self.0[i].matches_pod(pod) {
                return true;
            }
            i = i + 1;
        }
        false
    }

    fn matches_container(&self, pod: &PodInfo, container: &ContainerInfo) -> (b: bool) {
        let mut i: usize = 0;
        while i < self.0.len()
            invariant
                i <= self.0@.len(),
                forall|j: int|
                    0 <= j < i ==> !#[trigger] self.0@[j].container_matches(pod@, container@),
            decreases self.0@.len() - i,
        {
            if self.0[i].matches_container(pod, container) {
                return true;
            }
            i = i + 1;
        }
        false
    }
}

impl Matcher for NotMatcher {
    open spec fn pod_matches(&self, pod: PodView) -> bool {
        !self.0.pod_matches(pod)
    }

    open spec fn container_matches(&self, pod: PodView, container: Seq<char>) -> bool {
        !self.0.container_matches(pod, container)
    }

    fn matches_pod(&self, pod: &PodInfo) -> (b: bool) {
        !self.0.matches_pod(pod)
    }

    fn matches_container(&self, pod: &PodInfo, container: &ContainerInfo) -> (b: bool) {
        !self.0.matches_container(pod, container)
    }
}

// ---------------------------------------------------------------------------
// Laws
// ---------------------------------------------------------------------------
/// Among labels with distinct keys, the value of a key is that of the one
/// label that holds it.
proof fn lemma_label_value_at(labels: Seq<(Seq<char>, Seq<char>)>, i: int)
    requires
        unique_keys(labels),
        0 <= i < labels.len(),
    ensures
        label_value(labels, labels[i].0) == Some(labels[i].1),
    decreases labels.len(),
{
    if i > 0 {
        let rest = labels.drop_first();
        assert(labels[0].0 != labels[i].0);
        assert(unique_keys(rest)) by {
            assert forall|a: int, b: int|
                0 <= a < rest.len() && 0 <= b < rest.len() && a != b implies rest[a].0
                != rest[b].0 by {
                assert(rest[a] == labels[a + 1] && rest[b] == labels[b + 1]);
            }
        }
        assert(rest[i - 1] == labels[i]);
        lemma_label_value_at(rest, i - 1);
    }
}

/// A label selector made of a pod's own labels selects that pod.
pub proof fn lemma_selector_of_own_labels(labels: Seq<(Seq<char>, Seq<char>)>)
    requires
        unique_keys(labels),
    ensures
        labels_satisfy(keyed_map(labels), Some(labels)),
{
    lemma_keyed_map_members(labels);
    assert forall|k: Seq<char>| #[trigger] keyed_map(labels).contains_key(k) implies label_value(
        labels,
        k,
    ) == Some(keyed_map(labels)[k]) by {
        let i = choose|i: int| 0 <= i < labels.len() && labels[i].0 == k;
        assert(keyed_map(labels).contains_key(labels[i].0));
        lemma_label_value_at(labels, i);
    }
}

/// A label selector never selects a pod that has no labels.
pub proof fn lemma_selector_needs_labels(required: Map<Seq<char>, Seq<char>>)
    ensures
        !labels_satisfy(required, None),
{
}

/// A conjunction or disjunction of no matchers selects nothing.
pub proof fn lemma_empty_combination_selects_nothing(
    all: AndMatcher,
    any: OrMatcher,
    pod: PodView,
    container: Seq<char>,
)
    requires
        all.0@.len() == 0,
        any.0@.len() == 0,
    ensures
        !all.pod_matches(pod),
        !all.container_matches(pod, container),
        !any.pod_matches(pod),
        !any.container_matches(pod, container),
{
}

/// A conjunction or disjunction of a single matcher selects what that
/// matcher selects.
pub proof fn lemma_single_combination(
    all: AndMatcher,
    any: OrMatcher,
    pod: PodView,
    container: Seq<char>,
)
    requires
        all.0@.len() == 1,
        any.0@.len() == 1,
        any.0@[0] == all.0@[0],
    ensures
        all.pod_matches(pod) == all.0@[0].pod_matches(pod),
        all.container_matches(pod, container) == all.0@[0].container_matches(pod, container),
        any.pod_matches(pod) == all.0@[0].pod_matches(pod),
        any.container_matches(pod, container) == all.0@[0].container_matches(pod, container),
{
    if all.0@[0].pod_matches(pod) {
        assert(any.0@[0].pod_matches(pod));
    }
    if all.0@[0].container_matches(pod, container) {
        assert(any.0@[0].container_matches(pod, container));
    }
}

/// A disjunction selects a pod (or a container) exactly when at least one
/// of its matchers does: any one suffices, however many others also do.
pub proof fn lemma_or_selects_what_any_member_selects(
    any: OrMatcher,
    pod: PodView,
    container: Seq<char>,
    i: int,
)
    requires
        0 <= i < any.0@.len(),
    ensures
        any.0@[i].pod_matches(pod) ==> any.pod_matches(pod),
        any.0@[i].container_matches(pod, container) ==> any.container_matches(pod, container),
        any.pod_matches(pod) ==> exists|j: int|
            0 <= j < any.0@.len() && #[trigger] any.0@[j].pod_matches(pod),
        any.container_matches(pod, container) ==> exists|j: int|
            0 <= j < any.0@.len() && #[trigger] any.0@[j].container_matches(pod, container),
{
}

/// A conjunction selects a pod (or a container) exactly when it has
/// matchers and every one of them does: one that does not is enough to
/// refuse.
pub proof fn lemma_and_selects_what_every_member_selects(
    all: AndMatcher,
    pod: PodView,
    container: Seq<char>,
    i: int,
)
    requires
        0 <= i < all.0@.len(),
    ensures
        !all.0@[i].pod_matches(pod) ==> !all.pod_matches(pod),
        !all.0@[i].container_matches(pod, container) ==> !all.container_matches(pod, container),
        (forall|j: int| 0 <= j < all.0@.len() ==> #[trigger] all.0@[j].pod_matches(pod))
            ==> all.pod_matches(pod),
        (forall|j: int|
            0 <= j < all.0@.len() ==> #[trigger] all.0@[j].container_matches(pod, container))
            ==> all.container_matches(pod, container),
{
}

/// A negation selects exactly what its matcher does not.
pub proof fn lemma_not_selects_the_rest(not: NotMatcher, pod: PodView, container: Seq<char>)
    ensures
        not.pod_matches(pod) != not.0.pod_matches(pod),
        not.container_matches(pod, container) != not.0.container_matches(pod, container),
{
}

/// A pattern selects a pod when it finds a match in the pod's name (never a
/// pod without a name), and a container when it finds one in the
/// container's name, whatever the pod.
pub proof fn lemma_pattern_reads_names(
    m: RegexMatcher,
    pod: PodView,
    name: Seq<char>,
    container: Seq<char>,
)
    ensures
        pod.name == Some(name) ==> (m.pod_matches(pod) == regex_finds(m@, name)),
        pod.name is None ==> !m.pod_matches(pod),
        m.container_matches(pod, container) == regex_finds(m@, container),
{
}

/// A label selector refuses a pod that lacks one of the required labels, or
/// carries it with another value; it selects a pod that carries each
/// required label with its value.
pub proof fn lemma_selector_needs_each_label(
    required: Map<Seq<char>, Seq<char>>,
    labels: Seq<(Seq<char>, Seq<char>)>,
    key: Seq<char>,
)
    ensures
        required.contains_key(key) && label_value(labels, key) != Some(required[key])
            ==> !labels_satisfy(required, Some(labels)),
        (forall|k: Seq<char>| #[trigger]
            required.contains_key(k) ==> label_value(labels, k) == Some(required[k]))
            ==> labels_satisfy(required, Some(labels)),
{
}

/// The value of a label is that of the first pair with its key; a key that
/// no pair has has no value.
pub proof fn lemma_label_value_first(
    labels: Seq<(Seq<char>, Seq<char>)>,
    key: Seq<char>,
    i: int,
)
    requires
        0 <= i < labels.len(),
        labels[i].0 == key,
        forall|j: int| 0 <= j < i ==> labels[j].0 != key,
    ensures
        label_value(labels, key) == Some(labels[i].1),
    decreases i,
{
    if i > 0 {
        let rest = labels.drop_first();
        assert(labels[0].0 != key);
        assert forall|j: int| 0 <= j < i - 1 implies rest[j].0 != key by {
            assert(rest[j] == labels[j + 1]);
        }
        lemma_label_value_first(rest, key, i - 1);
    }
}

/// A key that no pair has has no value.
pub proof fn lemma_label_value_missing(labels: Seq<(Seq<char>, Seq<char>)>, key: Seq<char>)
    requires
        forall|j: int| 0 <= j < labels.len() ==> labels[j].0 != key,
    ensures
        label_value(labels, key) is None,
    decreases labels.len(),
{
    if labels.len() > 0 {
        let rest = labels.drop_first();
        assert(labels[0].0 != key);
        assert forall|j: int| 0 <= j < rest.len() implies rest[j].0 != key by {
            assert(rest[j] == labels[j + 1]);
        }
        lemma_label_value_missing(rest, key);
    }
}

} // verus!
