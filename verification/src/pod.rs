//! The library's own model of the parts of a Kubernetes pod that it reads:
//! its identity, labels, owners, phase and containers.
use vstd::prelude::*;

verus! {

/// A reference from a pod to the workload object that owns it.
pub struct OwnerRef {
    pub kind: String,
    pub name: String,
}

/// A container of a pod, known by its name.
pub struct ContainerInfo {
    pub name: String,
}

/// The containers that a pod's specification declares.
pub struct PodSpecInfo {
    pub init_containers: Option<Vec<ContainerInfo>>,
    pub containers: Vec<ContainerInfo>,
}

/// A pod: metadata, phase and specification.
pub struct PodInfo {
    pub name: Option<String>,
    pub namespace: Option<String>,
    pub uid: Option<String>,
    pub labels: Option<Vec<(String, String)>>,
    pub owner_references: Option<Vec<OwnerRef>>,
    pub phase: Option<String>,
    pub spec: Option<PodSpecInfo>,
}

/// Mathematical value of an [`OwnerRef`].
pub struct OwnerRefView {
    pub kind: Seq<char>,
    pub name: Seq<char>,
}

/// Mathematical value of a [`PodSpecInfo`]: container names.
pub struct PodSpecView {
    pub init_containers: Option<Seq<Seq<char>>>,
    pub containers: Seq<Seq<char>>,
}

/// Mathematical value of a [`PodInfo`].
pub struct PodView {
    pub name: Option<Seq<char>>,
    pub namespace: Option<Seq<char>>,
    pub uid: Option<Seq<char>>,
    pub labels: Option<Seq<(Seq<char>, Seq<char>)>>,
    pub owner_references: Option<Seq<OwnerRefView>>,
    pub phase: Option<Seq<char>>,
    pub spec: Option<PodSpecView>,
}

/// The text of an optional string.
pub open spec fn opt_str(o: Option<String>) -> Option<Seq<char>> {
    match o {
        Some(s) => Some(s@),
        None => None,
    }
}

/// The texts of a list of key/value pairs.
pub open spec fn pairs_view(v: Seq<(String, String)>) -> Seq<(Seq<char>, Seq<char>)> {
    v.map_values(|p: (String, String)| (p.0@, p.1@))
}

/// The names of a list of containers.
pub open spec fn container_names(v: Seq<ContainerInfo>) -> Seq<Seq<char>> {
    v.map_values(|c: ContainerInfo| c.name@)
}

impl View for OwnerRef {
    type V = OwnerRefView;

    open spec fn view(&self) -> OwnerRefView {
        OwnerRefView { kind: self.kind@, name: self.name@ }
    }
}

impl View for ContainerInfo {
    type V = Seq<char>;

    open spec fn view(&self) -> Seq<char> {
        self.name@
    }
}

impl View for PodSpecInfo {
    type V = PodSpecView;

    open spec fn view(&self) -> PodSpecView {
        PodSpecView {
            init_containers: match self.init_containers {
                Some(v) => Some(container_names(v@)),
                None => None,
            },
            containers: container_names(self.containers@),
        }
    }
}

impl View for PodInfo {
    type V = PodView;

    open spec fn view(&self) -> PodView {
        PodView {
            name: opt_str(self.name),
            namespace: opt_str(self.namespace),
            uid: opt_str(self.uid),
            labels: match self.labels {
                Some(v) => Some(pairs_view(v@)),
                None => None,
            },
            owner_references: match self.owner_references {
                Some(v) => Some(v@.map_values(|o: OwnerRef| o@)),
                None => None,
            },
            phase: opt_str(self.phase),
            spec: match self.spec {
                Some(s) => Some(s@),
                None => None,
            },
        }
    }
}

/// The value of label `key` among `labels`: that of the first pair with that
/// key.
pub open spec fn label_value(labels: Seq<(Seq<char>, Seq<char>)>, key: Seq<char>) -> Option<
    Seq<char>,
>
    decreases labels.len(),
{
    if labels.len() == 0 {
        None
    } else if labels[0].0 == key {
        Some(labels[0].1)
    } else {
        label_value(labels.drop_first(), key)
    }
}

/// A copy of an optional string.
pub fn clone_opt_string(o: &Option<String>) -> (r: Option<String>)
    ensures
        opt_str(r) == opt_str(*o),
{
    match o {
        Some(s) => Some(s.clone()),
        None => None,
    }
}

impl Clone for OwnerRef {
    fn clone(&self) -> (r: Self)
        ensures
            r@ == self@,
    {
        OwnerRef { kind: self.kind.clone(), name: self.name.clone() }
    }
}

impl Clone for ContainerInfo {
    fn clone(&self) -> (r: Self)
        ensures
            r@ == self@,
    {
        ContainerInfo { name: self.name.clone() }
    }
}

/// A copy of a list of containers.
pub fn clone_containers(v: &Vec<ContainerInfo>) -> (r: Vec<ContainerInfo>)
    ensures
        container_names(r@) == container_names(v@),
{
    let mut r: Vec<ContainerInfo> = Vec::new();
    let mut i: usize = 0;
    while i < v.len()
        invariant
            i <= v@.len(),
            container_names(r@) == container_names(v@.take(i as int)),
        decreases v@.len() - i,
    {
        r.push(v[i].clone());
        assert(container_names(v@.take(i + 1)) =~= container_names(v@.take(i as int)).push(
            v@[i as int].name@,
        ));
        assert(container_names(r@) =~= container_names(v@.take(i as int)).push(
            v@[i as int].name@,
        ));
        i = i + 1;
    }
    assert(v@.take(v@.len() as int) =~= v@);
    r
}

/// A copy of a list of key/value pairs.
pub fn clone_pairs(v: &Vec<(String, String)>) -> (r: Vec<(String, String)>)
    ensures
        pairs_view(r@) == pairs_view(v@),
{
    let mut r: Vec<(String, String)> = Vec::new();
    let mut i: usize = 0;
    while i < v.len()
        invariant
            i <= v@.len(),
            pairs_view(r@) == pairs_view(v@.take(i as int)),
        decreases v@.len() - i,
    {
        let (k, x) = &v[i];
        r.push((k.clone(), x.clone()));
        assert(pairs_view(v@.take(i + 1)) =~= pairs_view(v@.take(i as int)).push(
            (v@[i as int].0@, v@[i as int].1@),
        ));
        assert(pairs_view(r@) =~= pairs_view(v@.take(i as int)).push(
            (v@[i as int].0@, v@[i as int].1@),
        ));
        i = i + 1;
    }
    assert(v@.take(v@.len() as int) =~= v@);
    r
}

/// A copy of a list of owner references.
pub fn clone_owners(v: &Vec<OwnerRef>) -> (r: Vec<OwnerRef>)
    ensures
        r@.map_values(|o: OwnerRef| o@) == v@.map_values(|o: OwnerRef| o@),
{
    let mut r: Vec<OwnerRef> = Vec::new();
    let mut i: usize = 0;
    while i < v.len()
        invariant
            i <= v@.len(),
            r@.map_values(|o: OwnerRef| o@) == v@.take(i as int).map_values(|o: OwnerRef| o@),
        decreases v@.len() - i,
    {
        r.push(v[i].clone());
        assert(v@.take(i + 1).map_values(|o: OwnerRef| o@) =~= v@.take(i as int).map_values(
            |o: OwnerRef| o@,
        ).push(v@[i as int]@));
        assert(r@.map_values(|o: OwnerRef| o@) =~= v@.take(i as int).map_values(
            |o: OwnerRef| o@,
        ).push(v@[i as int]@));
        i = i + 1;
    }
    assert(v@.take(v@.len() as int) =~= v@);
    r
}

impl Clone for PodSpecInfo {
    fn clone(&self) -> (r: Self)
        ensures
            r@ == self@,
    {
        PodSpecInfo {
            init_containers: match &self.init_containers {
                Some(v) => Some(clone_containers(v)),
                None => None,
            },
            containers: clone_containers(&self.containers),
        }
    }
}

impl Clone for PodInfo {
    fn clone(&self) -> (r: Self)
        ensures
            r@ == self@,
    {
        let labels = match &self.labels {
            Some(v) => Some(clone_pairs(v)),
            None => None,
        };
        let owner_references = match &self.owner_references {
            Some(v) => Some(clone_owners(v)),
            None => None,
        };
        let spec = match &self.spec {
            Some(s) => Some(s.clone()),
            None => None,
        };
        PodInfo {
            name: clone_opt_string(&self.name),
            namespace: clone_opt_string(&self.namespace),
            uid: clone_opt_string(&self.uid),
            labels,
            owner_references,
            phase: clone_opt_string(&self.phase),
            spec,
        }
    }
}

} // verus!
