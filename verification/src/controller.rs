//! The controller's decisions: which containers of a pod to tail, how each
//! tailer is identified, and the bookkeeping of running tailers as pods are
//! listed, added, changed and deleted, and as a watch (re)starts with an
//! initial listing.
use vstd::prelude::*;
use crate::keyed::{
    keyed_map, lemma_keep_step, lemma_keyed_map_members, lemma_keyed_map_push,
    lemma_keyed_map_update, map_keep, unique_keys,
};
use crate::matcher::Matcher;
use crate::pod::{ContainerInfo, PodInfo, PodView, clone_containers, container_names};
use crate::text::{append_str, string_of, chars_of, str_contains, str_equals, contains_text};
use crate::tailer::{backoff_seconds, backoff_secs};
use crate::time::Timestamp;

verus! {

// ---------------------------------------------------------------------------
// Options and the choice of containers
// ---------------------------------------------------------------------------
/// What the controller watches and which containers it tails.
pub struct ControllerOptions {
    /// Namespaces to watch; `*` stands for all namespaces.
    pub namespaces: Vec<String>,
    /// A container is tailed only if this matcher selects it...
    pub inclusion_matcher: Box<dyn Matcher>,
    /// ...and this one does not.
    pub exclusion_matcher: Box<dyn Matcher>,
    /// Read logs from the start.
    pub since_start: bool,
    /// Read logs from this instant on.
    pub since: Option<Timestamp>,
}

/// The text of an optional text, empty when absent.
pub open spec fn text_or_empty(o: Option<Seq<char>>) -> Seq<char> {
    match o {
        Some(s) => s,
        None => Seq::empty(),
    }
}

/// What tells this pod instance apart from another pod of the same name: its
/// UID, or else its name.
pub open spec fn pod_identity(pod: PodView) -> Seq<char> {
    match pod.uid {
        Some(u) => u,
        None => text_or_empty(pod.name),
    }
}

/// The namespace and identity of a pod instance.
pub open spec fn pod_instance(pod: PodView) -> (Seq<char>, Seq<char>) {
    (text_or_empty(pod.namespace), pod_identity(pod))
}

/// The identifier of the tailer of a container of a pod:
/// `namespace/identity/container`.
pub open spec fn tailer_key(pod: PodView, container: Seq<char>) -> Seq<char> {
    text_or_empty(pod.namespace) + "/"@ + pod_identity(pod) + "/"@ + container
}

/// Only running and pending pods are tailed.
pub open spec fn tailing_allowed(pod: PodView) -> bool {
    pod.phase == Some("Running"@) || pod.phase == Some("Pending"@)
}

/// The containers of a pod that may be tailed, init containers first.
pub open spec fn candidate_containers(pod: PodView) -> Seq<Seq<char>> {
    match pod.spec {
        Some(s) => match s.init_containers {
            Some(init) => init + s.containers,
            None => s.containers,
        },
        None => Seq::empty(),
    }
}

/// The container of the pod is tailed: the pod runs (or is about to), the
/// inclusion matcher selects the pod (so each of its containers) or the
/// container itself, and the exclusion matcher selects neither.
pub open spec fn includes(opts: ControllerOptions, pod: PodView, container: Seq<char>) -> bool {
    &&& tailing_allowed(pod)
    &&& (opts.inclusion_matcher.pod_matches(pod) || opts.inclusion_matcher.container_matches(
        pod,
        container,
    ))
    &&& !opts.exclusion_matcher.pod_matches(pod)
    &&& !opts.exclusion_matcher.container_matches(pod, container)
}

/// The containers among `cs` that are tailed, in order.
pub open spec fn selected(opts: ControllerOptions, pod: PodView, cs: Seq<Seq<char>>) -> Seq<
    Seq<char>,
>
    decreases cs.len(),
{
    if cs.len() == 0 {
        Seq::empty()
    } else {
        let r = selected(opts, pod, cs.drop_last());
        if includes(opts, pod, cs.last()) {
            r.push(cs.last())
        } else {
            r
        }
    }
}

/// A container of a pod that is to be tailed.
pub struct TailerTarget {
    pub pod: PodInfo,
    pub container: ContainerInfo,
}

/// A running tailer: its identifier and what it tails.
pub struct TailerEntry {
    pub id: String,
    pub pod: PodInfo,
    pub container: ContainerInfo,
}

impl Clone for TailerTarget {
    fn clone(&self) -> (r: Self)
        ensures
            r.pod@ == self.pod@,
            r.container@ == self.container@,
    {
        TailerTarget { pod: self.pod.clone(), container: self.container.clone() }
    }
}

/// A tailed container: the pod and the container's name.
pub type TargetView = (PodView, Seq<char>);

/// The targets, keyed by their tailer identifiers.
pub open spec fn targets_keyed(v: Seq<TailerTarget>) -> Seq<(Seq<char>, TargetView)> {
    v.map_values(
        |t: TailerTarget| (tailer_key(t.pod@, t.container@), (t.pod@, t.container@)),
    )
}

/// The entries, keyed by their identifiers.
pub open spec fn entries_keyed(v: Seq<TailerEntry>) -> Seq<(Seq<char>, TargetView)> {
    v.map_values(|e: TailerEntry| (e.id@, (e.pod@, e.container@)))
}

/// Every key of the map is the tailer identifier of its target.
pub open spec fn keys_match_targets(m: Map<Seq<char>, TargetView>) -> bool {
    forall|k: Seq<char>| #[trigger] m.contains_key(k) ==> k == tailer_key(m[k].0, m[k].1)
}

/// The identifier of the tailer of `container` of `pod`.
pub fn tailer_id(pod: &PodInfo, container: &ContainerInfo) -> (id: String)
    ensures
        id@ == tailer_key(pod@, container@),
{
    let mut v: Vec<char> = Vec::new();
    match &pod.namespace {
        Some(ns) => append_str(&mut v, ns.as_str()),
        None => {},
    }
    append_str(&mut v, "/");
    match &pod.uid {
        Some(uid) => append_str(&mut v, uid.as_str()),
        None => match &pod.name {
            Some(name) => append_str(&mut v, name.as_str()),
            None => {},
        },
    }
    append_str(&mut v, "/");
    append_str(&mut v, container.name.as_str());
    assert(v@ =~= tailer_key(pod@, container@));
    string_of(&v)
}

/// The namespace and identity of the pod instance.
pub fn pod_instance_id(pod: &PodInfo) -> (r: (String, String))
    ensures
        (r.0@, r.1@) == pod_instance(pod@),
{
    let namespace = match &pod.namespace {
        Some(ns) => ns.clone(),
        None => String::new(),
    };
    let identity = match &pod.uid {
        Some(uid) => uid.clone(),
        None => match &pod.name {
            Some(name) => name.clone(),
            None => String::new(),
        },
    };
    (namespace, identity)
}

/// Whether the pod's phase allows tailing.
pub fn pod_allows_tailing(pod: &PodInfo) -> (b: bool)
    ensures
        b == tailing_allowed(pod@),
{
    match &pod.phase {
        Some(p) => {
            let running = "Running".to_string();
            let pending = "Pending".to_string();
            *p == running || *p == pending
        },
        None => false,
    }
}

impl ControllerOptions {
    /// Whether the container of the pod is to be tailed.
    pub fn should_include_container(&self, pod: &PodInfo, container: &ContainerInfo) -> (b: bool)
        ensures
            b == includes(*self, pod@, container@),
    {
        if !pod_allows_tailing(pod) {
            return false;
        }
        let included = self.inclusion_matcher.matches_pod(pod)
            || self.inclusion_matcher.matches_container(pod, container);
        if !included {
            return false;
        }
        let excluded = self.exclusion_matcher.matches_pod(pod)
            || self.exclusion_matcher.matches_container(pod, container);
        !excluded
    }

    /// The containers of the pod to tail, init containers first, each with
    /// the pod.
    pub fn matching_targets(&self, pod: &PodInfo) -> (r: Vec<TailerTarget>)
        ensures
            ({
                let sel = selected(*self, pod@, candidate_containers(pod@));
                &&& r@.len() == sel.len()
                &&& forall|i: int|
                    0 <= i < sel.len() ==> (#[trigger] r@[i]).pod@ == pod@ && r@[i].container@
                        == sel[i]
            }),
    {
        let mut cands: Vec<ContainerInfo> = Vec::new();
        match &pod.spec {
            Some(spec) => {
                match &spec.init_containers {
                    Some(init) => {
                        cands = clone_containers(init);
                    },
                    None => {},
                }
                let mut rest = clone_containers(&spec.containers);
                let ghost before = container_names(cands@);
                cands.append(&mut rest);
                assert(container_names(cands@) =~= before + container_names(spec.containers@));
            },
            None => {},
        }
        assert(container_names(cands@) =~= candidate_containers(pod@));
        let ghost cs = candidate_containers(pod@);
        let mut r: Vec<TailerTarget> = Vec::new();
        let mut i: usize = 0;
        assert(cs.take(0) =~= Seq::<Seq<char>>::empty());
        while i < cands.len()
            invariant
                i <= cands@.len(),
                cs == container_names(cands@),
                ({
                    let sel = selected(*self, pod@, cs.take(i as int));
                    &&& r@.len() == sel.len()
                    &&& forall|j: int|
                        0 <= j < sel.len() ==> (#[trigger] r@[j]).pod@ == pod@ && r@[j].container@
                            == sel[j]
                }),
            decreases cands@.len() - i,
        {
            assert(cs.take(i + 1).drop_last() =~= cs.take(i as int));
            assert(cs.take(i + 1).last() == cands@[i as int]@);
            if self.should_include_container(pod, &cands[i]) {
                r.push(TailerTarget { pod: pod.clone(), container: cands[i].clone() });
            }
            i = i + 1;
        }
        assert(cs.take(cands@.len() as int) =~= cs);
        r
    }
}

/// Distinct containers of one pod get distinct tailer identifiers.
pub proof fn lemma_tailer_key_distinguishes_containers(pod: PodView, a: Seq<char>, b: Seq<char>)
    ensures
        tailer_key(pod, a) == tailer_key(pod, b) <==> a == b,
{
    let p = text_or_empty(pod.namespace) + "/"@ + pod_identity(pod) + "/"@;
    assert(tailer_key(pod, a) == p + a);
    assert(tailer_key(pod, b) == p + b);
    if p + a == p + b {
        assert(a =~= (p + a).skip(p.len() as int));
        assert(b =~= (p + b).skip(p.len() as int));
    }
}

/// Every container chosen for tailing belongs to a running or pending pod;
/// the inclusion matcher selects the pod or the container, and the exclusion
/// matcher selects neither.
pub proof fn lemma_selected_are_included(opts: ControllerOptions, pod: PodView, cs: Seq<Seq<char>>)
    ensures
        forall|i: int|
            0 <= i < selected(opts, pod, cs).len() ==> includes(
                opts,
                pod,
                #[trigger] selected(opts, pod, cs)[i],
            ),
        forall|i: int|
            0 <= i < selected(opts, pod, cs).len() ==> cs.contains(
                #[trigger] selected(opts, pod, cs)[i],
            ),
    decreases cs.len(),
{
    if cs.len() > 0 {
        lemma_selected_are_included(opts, pod, cs.drop_last());
        let r = selected(opts, pod, cs.drop_last());
        assert forall|i: int|
            0 <= i < selected(opts, pod, cs).len() implies cs.contains(
            #[trigger] selected(opts, pod, cs)[i],
        ) by {
            if i < r.len() {
                assert(selected(opts, pod, cs)[i] == r[i]);
                assert(cs.drop_last().contains(r[i]));
                let j = choose|j: int| 0 <= j < cs.drop_last().len() && cs.drop_last()[j] == r[i];
                assert(cs[j] == r[i]);
            } else {
                assert(cs[cs.len() - 1] == selected(opts, pod, cs)[i]);
            }
        }
    }
}

/// When the inclusion matcher selects a running (or pending) pod, as a label
/// selector or a pattern on the pod's name does, every container of the pod
/// that the exclusion matcher leaves alone is tailed.
pub proof fn lemma_selected_pod_tails_its_containers(
    opts: ControllerOptions,
    pod: PodView,
    cs: Seq<Seq<char>>,
)
    requires
        tailing_allowed(pod),
        opts.inclusion_matcher.pod_matches(pod),
        !opts.exclusion_matcher.pod_matches(pod),
        forall|i: int|
            0 <= i < cs.len() ==> !opts.exclusion_matcher.container_matches(pod, #[trigger] cs[i]),
    ensures
        selected(opts, pod, cs) == cs,
    decreases cs.len(),
{
    if cs.len() > 0 {
        let t = cs.drop_last();
        assert forall|i: int| 0 <= i < t.len() implies !opts.exclusion_matcher.container_matches(
            pod,
            #[trigger] t[i],
        ) by {
            assert(t[i] == cs[i]);
        }
        lemma_selected_pod_tails_its_containers(opts, pod, t);
        assert(!opts.exclusion_matcher.container_matches(pod, cs[cs.len() - 1]));
        assert(t.push(cs.last()) =~= cs);
    }
}

/// A pod that is neither running nor pending has nothing to tail.
pub proof fn lemma_stopped_pod_selects_nothing(
    opts: ControllerOptions,
    pod: PodView,
    cs: Seq<Seq<char>>,
)
    requires
        !tailing_allowed(pod),
    ensures
        selected(opts, pod, cs).len() == 0,
    decreases cs.len(),
{
    if cs.len() > 0 {
        lemma_stopped_pod_selects_nothing(opts, pod, cs.drop_last());
    }
}


// ---------------------------------------------------------------------------
// The registry of running tailers
// ---------------------------------------------------------------------------
impl Clone for TailerEntry {
    fn clone(&self) -> (r: Self)
        ensures
            r.id@ == self.id@,
            r.pod@ == self.pod@,
            r.container@ == self.container@,
    {
        TailerEntry { id: self.id.clone(), pod: self.pod.clone(), container: self.container.clone() }
    }
}

/// The texts of a list of identifiers.
pub open spec fn ids_view(v: Seq<String>) -> Seq<Seq<char>> {
    v.map_values(|s: String| s@)
}

/// Which running tailers a removal stops.
enum Removal {
    /// Those of one pod instance.
    Instance { namespace: String, identity: String },
    /// Those of one pod instance that are not among the given identifiers.
    StaleOf { namespace: String, identity: String, desired: Vec<String> },
    /// Those not among the given identifiers.
    NotIn { desired: Vec<String> },
    /// The one with the given identifier.
    Id { id: String },
}

/// The removal stops the tailer with identifier `k` of target `v`.
spec fn removal_hits(r: Removal, k: Seq<char>, v: TargetView) -> bool {
    match r {
        Removal::Instance { namespace, identity } => pod_instance(v.0) == (namespace@, identity@),
        Removal::StaleOf { namespace, identity, desired } => pod_instance(v.0) == (
            namespace@,
            identity@,
        ) && !ids_view(desired@).contains(k),
        Removal::NotIn { desired } => !ids_view(desired@).contains(k),
        Removal::Id { id } => k == id@,
    }
}

spec fn kept_by(r: Removal) -> spec_fn(Seq<char>, TargetView) -> bool {
    |k: Seq<char>, v: TargetView| !removal_hits(r, k, v)
}

spec fn hit_by(r: Removal) -> spec_fn(Seq<char>, TargetView) -> bool {
    |k: Seq<char>, v: TargetView| removal_hits(r, k, v)
}

/// Whether the identifier is among `ids`.
fn contains_id(ids: &Vec<String>, id: &String) -> (b: bool)
    ensures
        b == ids_view(ids@).contains(id@),
{
    let mut i: usize = 0;
    while i < ids.len()
        invariant
            i <= ids@.len(),
            forall|j: int| 0 <= j < i ==> ids@[j]@ != id@,
        decreases ids@.len() - i,
    {
        if ids[i] == *id {
            assert(ids_view(ids@)[i as int] == id@);
            return true;
        }
        i = i + 1;
    }
    assert forall|j: int| 0 <= j < ids_view(ids@).len() implies ids_view(ids@)[j] != id@ by {
        assert(ids_view(ids@)[j] == ids@[j]@);
    }
    false
}

/// Whether the removal stops the tailer of the entry.
fn hits(r: &Removal, e: &TailerEntry) -> (b: bool)
    ensures
        b == removal_hits(*r, e.id@, (e.pod@, e.container@)),
{
    match r {
        Removal::Instance { namespace, identity } => {
            let (ns, ident) = pod_instance_id(&e.pod);
            ns == *namespace && ident == *identity
        },
        Removal::StaleOf { namespace, identity, desired } => {
            let (ns, ident) = pod_instance_id(&e.pod);
            ns == *namespace && ident == *identity && !contains_id(desired, &e.id)
        },
        Removal::NotIn { desired } => !contains_id(desired, &e.id),
        Removal::Id { id } => e.id == *id,
    }
}

/// The identifiers of the targets.
fn target_ids(v: &Vec<TailerTarget>) -> (ids: Vec<String>)
    ensures
        ids_view(ids@) == targets_keyed(v@).map_values(|p: (Seq<char>, TargetView)| p.0),
{
    let mut ids: Vec<String> = Vec::new();
    let mut i: usize = 0;
    while i < v.len()
        invariant
            i <= v@.len(),
            ids_view(ids@) == targets_keyed(v@.take(i as int)).map_values(
                |p: (Seq<char>, TargetView)| p.0,
            ),
        decreases v@.len() - i,
    {
        ids.push(tailer_id(&v[i].pod, &v[i].container));
        assert(targets_keyed(v@.take(i + 1)).map_values(|p: (Seq<char>, TargetView)| p.0)
            =~= targets_keyed(v@.take(i as int)).map_values(|p: (Seq<char>, TargetView)| p.0).push(
            tailer_key(v@[i as int].pod@, v@[i as int].container@),
        ));
        assert(ids_view(ids@) =~= targets_keyed(v@.take(i as int)).map_values(
            |p: (Seq<char>, TargetView)| p.0,
        ).push(tailer_key(v@[i as int].pod@, v@[i as int].container@)));
        i = i + 1;
    }
    assert(v@.take(v@.len() as int) =~= v@);
    ids
}

/// The map after registering the tailer of `container` of `pod`: unchanged
/// when a tailer with that identifier runs already.
pub open spec fn after_register(m: Map<Seq<char>, TargetView>, pod: PodView, container: Seq<
    char,
>) -> Map<Seq<char>, TargetView> {
    let k = tailer_key(pod, container);
    if m.contains_key(k) {
        m
    } else {
        m.insert(k, (pod, container))
    }
}

/// The map after inserting the targets for the containers `cs` of `pod`,
/// in order, a later target replacing one with the same identifier.
pub open spec fn with_targets(m: Map<Seq<char>, TargetView>, pod: PodView, cs: Seq<Seq<char>>) -> Map<
    Seq<char>,
    TargetView,
>
    decreases cs.len(),
{
    if cs.len() == 0 {
        m
    } else {
        with_targets(m, pod, cs.drop_last()).insert(
            tailer_key(pod, cs.last()),
            (pod, cs.last()),
        )
    }
}

/// The identifiers of the tailers of the containers `cs` of `pod`.
pub open spec fn target_keys(pod: PodView, cs: Seq<Seq<char>>) -> Seq<Seq<char>> {
    cs.map_values(|c: Seq<char>| tailer_key(pod, c))
}

/// The controller's state: its options, the running tailers by identifier,
/// and, while a watch lists the pods that exist, the targets found so far.
pub struct ControllerState {
    options: ControllerOptions,
    tailers: Vec<TailerEntry>,
    init_buffer: Option<Vec<TailerEntry>>,
}

impl ControllerState {
    /// Identifiers are distinct, and each is that of its target.
    #[verifier::type_invariant]
    closed spec fn well_formed(&self) -> bool {
        &&& unique_keys(entries_keyed(self.tailers@))
        &&& keys_match_targets(keyed_map(entries_keyed(self.tailers@)))
        &&& (self.init_buffer matches Some(b) ==> {
            &&& unique_keys(entries_keyed(b@))
            &&& keys_match_targets(keyed_map(entries_keyed(b@)))
        })
    }

    /// The running tailers: identifier to target.
    pub closed spec fn tailers_view(&self) -> Map<Seq<char>, TargetView> {
        keyed_map(entries_keyed(self.tailers@))
    }

    /// The targets found by the listing in progress, if one is.
    pub closed spec fn init_view(&self) -> Option<Map<Seq<char>, TargetView>> {
        match self.init_buffer {
            Some(b) => Some(keyed_map(entries_keyed(b@))),
            None => None,
        }
    }

    /// The options.
    pub closed spec fn opts(&self) -> ControllerOptions {
        self.options
    }

    /// A controller with no running tailers.
    pub fn new(options: ControllerOptions) -> (s: Self)
        ensures
            s.tailers_view() == Map::<Seq<char>, TargetView>::empty(),
            s.init_view() is None,
            s.opts() == options,
    {
        let s = ControllerState { options, tailers: Vec::new(), init_buffer: None };
        assert(s.tailers_view() =~= Map::<Seq<char>, TargetView>::empty());
        s
    }

    /// The options.
    pub fn options(&self) -> (o: &ControllerOptions)
        ensures
            *o == self.opts(),
    {
        &self.options
    }

    /// Whether a tailer with the identifier runs.
    pub fn is_tailing(&self, id: &String) -> (b: bool)
        ensures
            b == self.tailers_view().contains_key(id@),
    {
        proof {
            use_type_invariant(self);
            lemma_keyed_map_members(entries_keyed(self.tailers@));
        }
        let ghost ek = entries_keyed(self.tailers@);
        let mut i: usize = 0;
        while i < self.tailers.len()
            invariant
                i <= self.tailers@.len(),
                ek == entries_keyed(self.tailers@),
                unique_keys(ek),
                forall|j: int| 0 <= j < i ==> ek[j].0 != id@,
            decreases self.tailers@.len() - i,
        {
            if self.tailers[i].id == *id {
                assert(ek[i as int].0 == id@);
                proof {
                    lemma_keyed_map_members(ek);
                }
                return true;
            }
            i = i + 1;
        }
        proof {
            lemma_keyed_map_members(ek);
            if self.tailers_view().contains_key(id@) {
                let j = choose|j: int| 0 <= j < ek.len() && ek[j].0 == id@;
            }
        }
        false
    }

    /// Records a started tailer for the target, unless one with its
    /// identifier runs already; returns whether it was recorded.
    pub fn register(&mut self, target: TailerTarget) -> (added: bool)
        ensures
            added == !old(self).tailers_view().contains_key(
                tailer_key(target.pod@, target.container@),
            ),
            final(self).tailers_view() == after_register(
                old(self).tailers_view(),
                target.pod@,
                target.container@,
            ),
            final(self).init_view() == old(self).init_view(),
            final(self).opts() == old(self).opts(),
    {
        proof {
            use_type_invariant(&*self);
        }
        let id = tailer_id(&target.pod, &target.container);
        if self.is_tailing(&id) {
            return false;
        }
        let ghost before = entries_keyed(self.tailers@);
        let entry = TailerEntry { id, pod: target.pod, container: target.container };
        proof {
            lemma_keyed_map_push(before, entry.id@, (entry.pod@, entry.container@));
        }
        let mut entries: Vec<TailerEntry> = Vec::new();
        core::mem::swap(&mut entries, &mut self.tailers);
        entries.push(entry);
        assert(entries_keyed(entries@) =~= before.push(
            (entry.id@, (entry.pod@, entry.container@)),
        ));
        assert(keys_match_targets(keyed_map(entries_keyed(entries@))));
        self.tailers = entries;
        true
    }

    /// Stops the tailers that the removal hits; returns them.
    fn remove_where(&mut self, r: &Removal) -> (removed: Vec<TailerEntry>)
        ensures
            final(self).tailers_view() == map_keep(old(self).tailers_view(), kept_by(*r)),
            unique_keys(entries_keyed(removed@)),
            keyed_map(entries_keyed(removed@)) == map_keep(old(self).tailers_view(), hit_by(*r)),
            final(self).init_view() == old(self).init_view(),
            final(self).opts() == old(self).opts(),
    {
        proof {
            use_type_invariant(&*self);
        }
        let mut entries: Vec<TailerEntry> = Vec::new();
        core::mem::swap(&mut entries, &mut self.tailers);
        let ghost ek = entries_keyed(entries@);
        let mut kept: Vec<TailerEntry> = Vec::new();
        let mut removed: Vec<TailerEntry> = Vec::new();
        let mut i: usize = 0;
        assert(ek.take(0) =~= Seq::<(Seq<char>, TargetView)>::empty());
        assert(keyed_map(entries_keyed(kept@)) =~= map_keep(keyed_map(ek.take(0)), kept_by(*r)));
        assert(keyed_map(entries_keyed(removed@)) =~= map_keep(keyed_map(ek.take(0)), hit_by(*r)));
        while i < entries.len()
            invariant
                i <= entries@.len(),
                ek == entries_keyed(entries@),
                unique_keys(ek),
                unique_keys(entries_keyed(kept@)),
                unique_keys(entries_keyed(removed@)),
                keyed_map(entries_keyed(kept@)) == map_keep(keyed_map(ek.take(i as int)), kept_by(*r)),
                keyed_map(entries_keyed(removed@)) == map_keep(
                    keyed_map(ek.take(i as int)),
                    hit_by(*r),
                ),
            decreases entries@.len() - i,
        {
            let e = entries[i].clone();
            proof {
                lemma_keep_step(ek, i as int, entries_keyed(kept@), kept_by(*r));
                lemma_keep_step(ek, i as int, entries_keyed(removed@), hit_by(*r));
            }
            if hits(r, &e) {
                let ghost before = entries_keyed(removed@);
                removed.push(e);
                assert(entries_keyed(removed@) =~= before.push(ek[i as int]));
            } else {
                let ghost before = entries_keyed(kept@);
                kept.push(e);
                assert(entries_keyed(kept@) =~= before.push(ek[i as int]));
            }
            i = i + 1;
        }
        assert(ek.take(entries@.len() as int) =~= ek);
        assert(keys_match_targets(keyed_map(entries_keyed(kept@))));
        self.tailers = kept;
        removed
    }

    /// A pod was deleted: stops all tailers of that pod instance and returns
    /// them. The tailers of other pods stay.
    pub fn remove_tailers_for_pod(&mut self, pod: &PodInfo) -> (removed: Vec<TailerEntry>)
        ensures
            forall|k: Seq<char>| #[trigger]
                final(self).tailers_view().contains_key(k) <==> (old(self).tailers_view().contains_key(
                    k,
                ) && pod_instance(old(self).tailers_view()[k].0) != pod_instance(pod@)),
            forall|k: Seq<char>| #[trigger]
                final(self).tailers_view().contains_key(k) ==> final(self).tailers_view()[k]
                    == old(self).tailers_view()[k],
            unique_keys(entries_keyed(removed@)),
            forall|k: Seq<char>| #[trigger]
                keyed_map(entries_keyed(removed@)).contains_key(k) <==> (
                old(self).tailers_view().contains_key(k) && pod_instance(
                    old(self).tailers_view()[k].0,
                ) == pod_instance(pod@)),
            forall|k: Seq<char>| #[trigger]
                keyed_map(entries_keyed(removed@)).contains_key(k) ==> keyed_map(
                    entries_keyed(removed@),
                )[k] == old(self).tailers_view()[k],
            final(self).init_view() == old(self).init_view(),
            final(self).opts() == old(self).opts(),
    {
        let (namespace, identity) = pod_instance_id(pod);
        let r = Removal::Instance { namespace, identity };
        self.remove_where(&r)
    }

    /// A pod was added or changed: stops the tailers of that pod instance
    /// whose containers are no longer to be tailed, and returns them with the
    /// targets that are to be tailed now.
    pub fn reconcile_pod_targets(&mut self, pod: &PodInfo) -> (r: (
        Vec<TailerEntry>,
        Vec<TailerTarget>,
    ))
        ensures
            ({
                let sel = selected(old(self).opts(), pod@, candidate_containers(pod@));
                let keys = target_keys(pod@, sel);
                let m = old(self).tailers_view();
                &&& forall|k: Seq<char>| #[trigger]
                    final(self).tailers_view().contains_key(k) <==> (m.contains_key(k) && !(
                    pod_instance(m[k].0) == pod_instance(pod@) && !keys.contains(k)))
                &&& forall|k: Seq<char>| #[trigger]
                    final(self).tailers_view().contains_key(k) ==> final(self).tailers_view()[k]
                        == m[k]
                &&& unique_keys(entries_keyed(r.0@))
                &&& forall|k: Seq<char>| #[trigger]
                    keyed_map(entries_keyed(r.0@)).contains_key(k) <==> (m.contains_key(k)
                        && pod_instance(m[k].0) == pod_instance(pod@) && !keys.contains(k))
                &&& forall|k: Seq<char>| #[trigger]
                    keyed_map(entries_keyed(r.0@)).contains_key(k) ==> keyed_map(
                        entries_keyed(r.0@),
                    )[k] == m[k]
                &&& r.1@.len() == sel.len()
                &&& forall|i: int|
                    0 <= i < sel.len() ==> (#[trigger] r.1@[i]).pod@ == pod@
                        && r.1@[i].container@ == sel[i]
            }),
            final(self).init_view() == old(self).init_view(),
            final(self).opts() == old(self).opts(),
    {
        let desired = self.options.matching_targets(pod);
        let ids = target_ids(&desired);
        let ghost sel = selected(self.opts(), pod@, candidate_containers(pod@));
        assert(ids_view(ids@) =~= target_keys(pod@, sel)) by {
            assert forall|i: int| 0 <= i < sel.len() implies ids_view(ids@)[i] == target_keys(
                pod@,
                sel,
            )[i] by {
                assert(desired@[i].pod@ == pod@);
            }
        }
        let (namespace, identity) = pod_instance_id(pod);
        let r = Removal::StaleOf { namespace, identity, desired: ids };
        let removed = self.remove_where(&r);
        (removed, desired)
    }

    /// A watch (re)starts listing the pods that exist.
    pub fn on_init(&mut self)
        ensures
            final(self).init_view() == Some(Map::<Seq<char>, TargetView>::empty()),
            final(self).tailers_view() == old(self).tailers_view(),
            final(self).opts() == old(self).opts(),
    {
        proof {
            use_type_invariant(&*self);
        }
        let empty: Vec<TailerEntry> = Vec::new();
        assert(entries_keyed(empty@) =~= Seq::<(Seq<char>, TargetView)>::empty());
        assert(keyed_map(entries_keyed(empty@)) =~= Map::<Seq<char>, TargetView>::empty());
        self.init_buffer = Some(empty);
    }

    /// Inserts an entry, replacing one with the same identifier.
    fn upsert(v: &mut Vec<TailerEntry>, e: TailerEntry)
        requires
            unique_keys(entries_keyed(old(v)@)),
        ensures
            unique_keys(entries_keyed(final(v)@)),
            keyed_map(entries_keyed(final(v)@)) == keyed_map(entries_keyed(old(v)@)).insert(
                e.id@,
                (e.pod@, e.container@),
            ),
    {
        let ghost before = entries_keyed(v@);
        let mut j: usize = 0;
        while j < v.len() && !(v[j].id == e.id)
            invariant
                j <= v@.len(),
                before == entries_keyed(v@),
                forall|t: int| 0 <= t < j ==> before[t].0 != e.id@,
            decreases v@.len() - j,
        {
            j = j + 1;
        }
        if j < v.len() {
            proof {
                lemma_keyed_map_update(before, j as int, (e.pod@, e.container@));
            }
            v.set(j, e);
            assert(entries_keyed(v@) =~= before.update(
                j as int,
                (before[j as int].0, (e.pod@, e.container@)),
            ));
        } else {
            proof {
                lemma_keyed_map_members(before);
                if keyed_map(before).contains_key(e.id@) {
                    let t = choose|t: int| 0 <= t < before.len() && before[t].0 == e.id@;
                }
                lemma_keyed_map_push(before, e.id@, (e.pod@, e.container@));
            }
            v.push(e);
            assert(entries_keyed(v@) =~= before.push((e.id@, (e.pod@, e.container@))));
        }
    }

    /// The listing of a (re)started watch found a pod: its targets are noted.
    pub fn on_init_apply(&mut self, pod: &PodInfo)
        ensures
            final(self).init_view() == Some(
                with_targets(
                    match old(self).init_view() {
                        Some(m) => m,
                        None => Map::empty(),
                    },
                    pod@,
                    selected(old(self).opts(), pod@, candidate_containers(pod@)),
                ),
            ),
            final(self).tailers_view() == old(self).tailers_view(),
            final(self).opts() == old(self).opts(),
    {
        proof {
            use_type_invariant(&*self);
        }
        let targets = self.options.matching_targets(pod);
        let ghost sel = selected(self.opts(), pod@, candidate_containers(pod@));
        let mut taken: Option<Vec<TailerEntry>> = None;
        core::mem::swap(&mut taken, &mut self.init_buffer);
        let mut buffer = match taken {
            Some(b) => b,
            None => Vec::new(),
        };
        let ghost base = keyed_map(entries_keyed(buffer@));
        assert(base =~= match old(self).init_view() {
            Some(m) => m,
            None => Map::empty(),
        });
        let mut i: usize = 0;
        assert(sel.take(0) =~= Seq::<Seq<char>>::empty());
        while i < targets.len()
            invariant
                i <= targets@.len(),
                targets@.len() == sel.len(),
                forall|t: int|
                    0 <= t < sel.len() ==> (#[trigger] targets@[t]).pod@ == pod@
                        && targets@[t].container@ == sel[t],
                unique_keys(entries_keyed(buffer@)),
                keyed_map(entries_keyed(buffer@)) == with_targets(base, pod@, sel.take(i as int)),
            decreases targets@.len() - i,
        {
            let t = &targets[i];
            let e = TailerEntry {
                id: tailer_id(&t.pod, &t.container),
                pod: t.pod.clone(),
                container: t.container.clone(),
            };
            Self::upsert(&mut buffer, e);
            assert(sel.take(i + 1).drop_last() =~= sel.take(i as int));
            i = i + 1;
        }
        assert(sel.take(sel.len() as int) =~= sel);
        proof {
            lemma_with_targets_keys_match(base, pod@, sel);
        }
        self.init_buffer = Some(buffer);
    }

    /// The listing of a (re)started watch is complete: the tailers of targets
    /// it did not find are stopped. Returns those stopped tailers and the
    /// targets found, which are to be tailed.
    pub fn on_init_done(&mut self) -> (r: (Vec<TailerEntry>, Vec<TailerTarget>))
        ensures
            ({
                let desired = match old(self).init_view() {
                    Some(m) => m,
                    None => Map::empty(),
                };
                let m = old(self).tailers_view();
                &&& final(self).tailers_view() == map_keep(
                    m,
                    |k: Seq<char>, v: TargetView| desired.contains_key(k),
                )
                &&& unique_keys(entries_keyed(r.0@))
                &&& keyed_map(entries_keyed(r.0@)) == map_keep(
                    m,
                    |k: Seq<char>, v: TargetView| !desired.contains_key(k),
                )
                &&& unique_keys(targets_keyed(r.1@))
                &&& keyed_map(targets_keyed(r.1@)) == desired
            }),
            final(self).init_view() is None,
            final(self).opts() == old(self).opts(),
    {
        proof {
            use_type_invariant(&*self);
        }
        let mut taken: Option<Vec<TailerEntry>> = None;
        core::mem::swap(&mut taken, &mut self.init_buffer);
        let desired = match taken {
            Some(b) => b,
            None => Vec::new(),
        };
        let ghost dk = entries_keyed(desired@);
        let ghost dm = keyed_map(dk);
        assert(dm =~= match old(self).init_view() {
            Some(m) => m,
            None => Map::empty(),
        });
        let mut ids: Vec<String> = Vec::new();
        let mut targets: Vec<TailerTarget> = Vec::new();
        let mut i: usize = 0;
        while i < desired.len()
            invariant
                i <= desired@.len(),
                dk == entries_keyed(desired@),
                ids_view(ids@) == dk.take(i as int).map_values(|p: (Seq<char>, TargetView)| p.0),
                targets_keyed(targets@) == dk.take(i as int),
                keys_match_targets(dm),
                unique_keys(dk),
                dm == keyed_map(dk),
            decreases desired@.len() - i,
        {
            let e = &desired[i];
            let ghost ids_before = ids_view(ids@);
            ids.push(e.id.clone());
            assert(ids_view(ids@) =~= ids_before.push(dk[i as int].0));
            targets.push(TailerTarget { pod: e.pod.clone(), container: e.container.clone() });
            proof {
                lemma_keyed_map_members(dk);
                assert(dm.contains_key(dk[i as int].0));
            }
            assert(dk.take(i + 1) =~= dk.take(i as int).push(dk[i as int]));
            assert(ids_view(ids@) =~= dk.take(i + 1).map_values(|p: (Seq<char>, TargetView)| p.0));
            assert(targets_keyed(targets@) =~= dk.take(i + 1));
            i = i + 1;
        }
        assert(dk.take(desired@.len() as int) =~= dk);
        let ghost m = self.tailers_view();
        let r = Removal::NotIn { desired: ids };
        let removed = self.remove_where(&r);
        proof {
            lemma_keyed_map_members(dk);
            assert forall|k: Seq<char>| ids_view(ids@).contains(k) <==> dm.contains_key(k) by {
                if ids_view(ids@).contains(k) {
                    let j = choose|j: int| 0 <= j < ids_view(ids@).len() && ids_view(ids@)[j] == k;
                    assert(dk[j].0 == k);
                }
                if dm.contains_key(k) {
                    let j = choose|j: int| 0 <= j < dk.len() && dk[j].0 == k;
                    assert(ids_view(ids@)[j] == k);
                }
            }
            assert(map_keep(m, kept_by(r)) =~= map_keep(
                m,
                |k: Seq<char>, v: TargetView| dm.contains_key(k),
            ));
            assert(map_keep(m, hit_by(r)) =~= map_keep(
                m,
                |k: Seq<char>, v: TargetView| !dm.contains_key(k),
            ));
        }
        (removed, targets)
    }

    /// The tailer with the identifier ended by itself: it is forgotten, so
    /// that a later instance of the container can be tailed again.
    pub fn tailer_finished(&mut self, id: &String) -> (removed: Vec<TailerEntry>)
        ensures
            final(self).tailers_view() == old(self).tailers_view().remove(id@),
            removed@.len() <= 1,
            unique_keys(entries_keyed(removed@)),
            keyed_map(entries_keyed(removed@)) == if old(self).tailers_view().contains_key(id@) {
                map![id@ => old(self).tailers_view()[id@]]
            } else {
                Map::<Seq<char>, TargetView>::empty()
            },
            final(self).init_view() == old(self).init_view(),
            final(self).opts() == old(self).opts(),
    {
        let ghost m = self.tailers_view();
        let r = Removal::Id { id: id.clone() };
        let removed = self.remove_where(&r);
        assert(map_keep(m, kept_by(r)) =~= m.remove(id@));
        assert(map_keep(m, hit_by(r)) =~= if m.contains_key(id@) {
            map![id@ => m[id@]]
        } else {
            Map::<Seq<char>, TargetView>::empty()
        });
        proof {
            lemma_keyed_map_members(entries_keyed(removed@));
            if removed@.len() > 1 {
                let rk = entries_keyed(removed@);
                assert(keyed_map(rk).contains_key(rk[0].0));
                assert(keyed_map(rk).contains_key(rk[1].0));
                assert(rk[0].0 == id@ && rk[1].0 == id@);
            }
        }
        removed
    }
}

/// The inserted targets carry their own identifiers as keys.
proof fn lemma_with_targets_keys_match(m: Map<Seq<char>, TargetView>, pod: PodView, cs: Seq<Seq<char>>)
    requires
        keys_match_targets(m),
    ensures
        keys_match_targets(with_targets(m, pod, cs)),
    decreases cs.len(),
{
    if cs.len() > 0 {
        lemma_with_targets_keys_match(m, pod, cs.drop_last());
    }
}

/// Registering the same target twice starts one tailer.
pub proof fn lemma_register_idempotent(
    m: Map<Seq<char>, TargetView>,
    pod: PodView,
    container: Seq<char>,
)
    ensures
        after_register(after_register(m, pod, container), pod, container) == after_register(
            m,
            pod,
            container,
        ),
        after_register(m, pod, container).contains_key(tailer_key(pod, container)),
{
}

/// A tailer that ends by itself is forgotten: registering a target that had
/// no tailer and then finishing its tailer leaves the registry as it was.
pub proof fn lemma_finish_undoes_register(
    m: Map<Seq<char>, TargetView>,
    pod: PodView,
    container: Seq<char>,
)
    requires
        !m.contains_key(tailer_key(pod, container)),
    ensures
        after_register(m, pod, container).remove(tailer_key(pod, container)) == m,
{
    assert(after_register(m, pod, container).remove(tailer_key(pod, container)) =~= m);
}

// ---------------------------------------------------------------------------
// Watching namespaces
// ---------------------------------------------------------------------------
/// The namespace a watch is scoped to: `*` stands for all namespaces (no
/// scope), any other name for that namespace.
pub fn namespace_scope(namespace: &str) -> (r: Option<String>)
    ensures
        namespace@ == "*"@ ==> r is None,
        namespace@ != "*"@ ==> (r matches Some(s) && s@ == namespace@),
{
    let star = chars_of("*");
    if str_equals(namespace, &star) {
        None
    } else {
        Some(namespace.to_string())
    }
}

/// The error text says that access was refused.
pub open spec fn permission_denied_text(msg: Seq<char>) -> bool {
    ||| contains_text(msg, "forbidden"@)
    ||| contains_text(msg, "Forbidden"@)
    ||| contains_text(msg, "403"@)
}

/// Whether listing or watching a namespace failed for want of permission;
/// such a namespace is skipped, and its watch is not restarted.
pub fn is_permission_denied(msg: &str) -> (b: bool)
    ensures
        b == permission_denied_text(msg@),
{
    let m = chars_of(msg);
    str_contains(&m, "forbidden") || str_contains(&m, "Forbidden") || str_contains(&m, "403")
}

/// What the first listing of the namespaces found: whether any container is
/// to be tailed, and the namespaces that refused access, which are not
/// watched.
pub struct Discovery {
    pub discovered_any: bool,
    pub inaccessible: Vec<String>,
}

impl Discovery {
    /// Nothing listed yet.
    pub fn new() -> (d: Self)
        ensures
            !d.discovered_any,
            d.inaccessible@.len() == 0,
    {
        Discovery { discovered_any: false, inaccessible: Vec::new() }
    }

    /// A listed pod had these targets to tail.
    pub fn pod_listed(&mut self, targets: &Vec<TailerTarget>)
        ensures
            final(self).discovered_any == (old(self).discovered_any || targets@.len() > 0),
            final(self).inaccessible@ == old(self).inaccessible@,
    {
        if targets.len() > 0 {
            self.discovered_any = true;
        }
    }

    /// Listing the namespace failed with the error text; returns whether
    /// access was refused, in which case the namespace is noted as
    /// inaccessible.
    pub fn list_failed(&mut self, namespace: &str, error: &str) -> (denied: bool)
        ensures
            denied == permission_denied_text(error@),
            final(self).discovered_any == old(self).discovered_any,
            ids_view(final(self).inaccessible@) == if denied {
                ids_view(old(self).inaccessible@).push(namespace@)
            } else {
                ids_view(old(self).inaccessible@)
            },
    {
        let denied = is_permission_denied(error);
        if denied {
            let ghost before = ids_view(self.inaccessible@);
            self.inaccessible.push(namespace.to_string());
            assert(ids_view(self.inaccessible@) =~= before.push(namespace@));
        }
        denied
    }

    /// Whether the namespace is watched: it did not refuse access.
    pub fn should_watch(&self, namespace: &String) -> (b: bool)
        ensures
            b == !ids_view(self.inaccessible@).contains(namespace@),
    {
        !contains_id(&self.inaccessible, namespace)
    }
}

/// What a namespace's watch does after its stream failed or ended.
pub enum WatchAction {
    /// Access was refused: the watch stops for good.
    Stop,
    /// The watch is restarted after the given number of seconds.
    RestartAfter(u64),
}

/// The restart bookkeeping of one namespace's watch: the number of restarts
/// since the last event that arrived.
pub struct WatchRetry {
    pub retry_count: u32,
}

impl WatchRetry {
    /// A watch that has not failed.
    pub fn new() -> (w: Self)
        ensures
            w.retry_count == 0,
    {
        WatchRetry { retry_count: 0 }
    }

    /// An event arrived: the count starts over.
    pub fn on_event(&mut self)
        ensures
            final(self).retry_count == 0,
    {
        self.retry_count = 0;
    }

    /// The stream ended: the watch restarts after `2^min(count, 4)` seconds
    /// (at most 30), and the count grows by one (saturating).
    pub fn on_stream_end(&mut self) -> (wait_secs: u64)
        ensures
            wait_secs == backoff_seconds(old(self).retry_count),
            final(self).retry_count == if old(self).retry_count == u32::MAX {
                u32::MAX
            } else {
                (old(self).retry_count + 1) as u32
            },
    {
        let wait_secs = backoff_secs(self.retry_count);
        self.retry_count = self.retry_count.saturating_add(1);
        wait_secs
    }

    /// The stream failed with the error text: a refused access stops the
    /// watch and leaves the count; any other error restarts it as the end of
    /// the stream does.
    pub fn on_stream_error(&mut self, msg: &str) -> (a: WatchAction)
        ensures
            permission_denied_text(msg@) ==> a is Stop && final(self).retry_count == old(
                self,
            ).retry_count,
            !permission_denied_text(msg@) ==> (a matches WatchAction::RestartAfter(w) && w
                == backoff_seconds(old(self).retry_count)),
            !permission_denied_text(msg@) ==> final(self).retry_count == if old(self).retry_count
                == u32::MAX {
                u32::MAX
            } else {
                (old(self).retry_count + 1) as u32
            },
    {
        if is_permission_denied(msg) {
            WatchAction::Stop
        } else {
            WatchAction::RestartAfter(self.on_stream_end())
        }
    }
}

// ---------------------------------------------------------------------------
// Laws of the choice of containers
// ---------------------------------------------------------------------------
/// Only running and pending pods are tailed.
pub proof fn lemma_tailing_phases(pod: PodView)
    ensures
        pod.phase == Some("Running"@) ==> tailing_allowed(pod),
        pod.phase == Some("Pending"@) ==> tailing_allowed(pod),
        pod.phase is None ==> !tailing_allowed(pod),
        pod.phase is Some && pod.phase->0 != "Running"@ && pod.phase->0 != "Pending"@
            ==> !tailing_allowed(pod),
{
}

/// A tailer is identified by the pod's namespace (empty when it has none),
/// the pod's UID (or else its name, or else nothing) and the container's
/// name, separated by `/`.
pub proof fn lemma_tailer_key_parts(pod: PodView, container: Seq<char>)
    ensures
        pod.namespace is Some && pod.uid is Some ==> tailer_key(pod, container)
            == pod.namespace->0 + "/"@ + pod.uid->0 + "/"@ + container,
        pod.namespace is Some && pod.uid is None && pod.name is Some ==> tailer_key(pod, container)
            == pod.namespace->0 + "/"@ + pod.name->0 + "/"@ + container,
        pod.namespace is None && pod.uid is None && pod.name is None ==> tailer_key(
            pod,
            container,
        ) == Seq::<char>::empty() + "/"@ + Seq::<char>::empty() + "/"@ + container,
        pod_instance(pod) == (text_or_empty(pod.namespace), if pod.uid is Some {
            pod.uid->0
        } else {
            text_or_empty(pod.name)
        }),
{
}

/// The inclusion matcher admits a container by selecting its pod or the
/// container itself; the exclusion matcher refuses it by selecting either;
/// a pod that neither runs nor is pending has no container tailed.
pub proof fn lemma_inclusion_and_exclusion(
    opts: ControllerOptions,
    pod: PodView,
    container: Seq<char>,
)
    ensures
        tailing_allowed(pod) && opts.inclusion_matcher.container_matches(pod, container)
            && !opts.exclusion_matcher.pod_matches(pod)
            && !opts.exclusion_matcher.container_matches(pod, container) ==> includes(
            opts,
            pod,
            container,
        ),
        tailing_allowed(pod) && opts.inclusion_matcher.pod_matches(pod)
            && !opts.exclusion_matcher.pod_matches(pod)
            && !opts.exclusion_matcher.container_matches(pod, container) ==> includes(
            opts,
            pod,
            container,
        ),
        opts.exclusion_matcher.pod_matches(pod) ==> !includes(opts, pod, container),
        opts.exclusion_matcher.container_matches(pod, container) ==> !includes(
            opts,
            pod,
            container,
        ),
        !opts.inclusion_matcher.pod_matches(pod) && !opts.inclusion_matcher.container_matches(
            pod,
            container,
        ) ==> !includes(opts, pod, container),
        !tailing_allowed(pod) ==> !includes(opts, pod, container),
{
}

/// Every candidate container that is to be tailed is among the chosen ones.
pub proof fn lemma_included_are_selected(
    opts: ControllerOptions,
    pod: PodView,
    cs: Seq<Seq<char>>,
    i: int,
)
    requires
        0 <= i < cs.len(),
        includes(opts, pod, cs[i]),
    ensures
        selected(opts, pod, cs).contains(cs[i]),
    decreases cs.len(),
{
    if i < cs.len() - 1 {
        let t = cs.drop_last();
        assert(t[i] == cs[i]);
        lemma_included_are_selected(opts, pod, t, i);
        let r = selected(opts, pod, t);
        let j = choose|j: int| 0 <= j < r.len() && r[j] == cs[i];
        if includes(opts, pod, cs.last()) {
            assert(selected(opts, pod, cs)[j] == cs[i]);
        } else {
            assert(selected(opts, pod, cs) == r);
        }
    } else {
        let r = selected(opts, pod, cs.drop_last());
        assert(selected(opts, pod, cs) == r.push(cs.last()));
        assert(selected(opts, pod, cs)[r.len() as int] == cs[i]);
    }
}

/// Access is refused exactly when the error text says `forbidden`,
/// `Forbidden` or `403`.
pub proof fn lemma_permission_denied_texts(msg: Seq<char>)
    ensures
        permission_denied_text(msg) ==> contains_text(msg, "forbidden"@) || contains_text(
            msg,
            "Forbidden"@,
        ) || contains_text(msg, "403"@),
        contains_text(msg, "forbidden"@) || contains_text(msg, "Forbidden"@) || contains_text(
            msg,
            "403"@,
        ) ==> permission_denied_text(msg),
{
}

/// Registering a target keeps a tailer that runs already under its
/// identifier (it is not replaced), adds the target under its identifier
/// otherwise, and leaves every other tailer as it was.
pub proof fn lemma_register_keeps_others(
    m: Map<Seq<char>, TargetView>,
    pod: PodView,
    container: Seq<char>,
    k: Seq<char>,
)
    ensures
        m.contains_key(tailer_key(pod, container)) ==> after_register(m, pod, container) == m,
        !m.contains_key(tailer_key(pod, container)) ==> after_register(
            m,
            pod,
            container,
        ).contains_key(tailer_key(pod, container)) && after_register(m, pod, container)[tailer_key(
            pod,
            container,
        )] == (pod, container),
        k != tailer_key(pod, container) ==> (after_register(m, pod, container).contains_key(k)
            == m.contains_key(k) && (m.contains_key(k) ==> after_register(m, pod, container)[k]
            == m[k])),
{
}

/// Noting the targets of a listed pod adds each container's target under its
/// identifier and keeps what was noted for other identifiers.
pub proof fn lemma_with_targets_adds_each(
    m: Map<Seq<char>, TargetView>,
    pod: PodView,
    cs: Seq<Seq<char>>,
    k: Seq<char>,
)
    ensures
        with_targets(m, pod, cs).contains_key(k) <==> (m.contains_key(k) || exists|i: int|
            0 <= i < cs.len() && #[trigger] tailer_key(pod, cs[i]) == k),
        (forall|i: int| 0 <= i < cs.len() ==> #[trigger] tailer_key(pod, cs[i]) != k) ==> (
        with_targets(m, pod, cs).contains_key(k) ==> with_targets(m, pod, cs)[k] == m[k]),
        (exists|i: int| 0 <= i < cs.len() && #[trigger] tailer_key(pod, cs[i]) == k) ==> (
        with_targets(m, pod, cs)[k].0 == pod && tailer_key(pod, with_targets(m, pod, cs)[k].1)
            == k),
    decreases cs.len(),
{
    if cs.len() > 0 {
        let t = cs.drop_last();
        lemma_with_targets_adds_each(m, pod, t, k);
        let n = cs.len() - 1;
        if exists|i: int| 0 <= i < t.len() && #[trigger] tailer_key(pod, t[i]) == k {
            let i = choose|i: int| 0 <= i < t.len() && #[trigger] tailer_key(pod, t[i]) == k;
            assert(tailer_key(pod, cs[i]) == k);
        }
        if exists|i: int| 0 <= i < cs.len() && #[trigger] tailer_key(pod, cs[i]) == k {
            let i = choose|i: int| 0 <= i < cs.len() && #[trigger] tailer_key(pod, cs[i]) == k;
            if i < n {
                assert(tailer_key(pod, t[i]) == k);
            }
        }
        if forall|i: int| 0 <= i < cs.len() ==> #[trigger] tailer_key(pod, cs[i]) != k {
            assert forall|i: int| 0 <= i < t.len() implies #[trigger] tailer_key(pod, t[i]) != k by {
                assert(t[i] == cs[i]);
                assert(tailer_key(pod, cs[i]) != k);
            }
            assert(tailer_key(pod, cs[n]) != k);
        }
    }
}

/// The candidates of a pod are its init containers followed by its
/// containers, in the order the specification lists them; a pod without a
/// specification has none.
pub proof fn lemma_candidates_in_order(pod: PodView)
    ensures
        pod.spec is None ==> candidate_containers(pod).len() == 0,
        pod.spec matches Some(sp) ==> candidate_containers(pod) == (if sp.init_containers is Some {
            sp.init_containers->0
        } else {
            Seq::<Seq<char>>::empty()
        }) + sp.containers,
{
    if let Some(sp) = pod.spec {
        if sp.init_containers is None {
            assert(Seq::<Seq<char>>::empty() + sp.containers =~= sp.containers);
        }
    }
}

} // verus!
