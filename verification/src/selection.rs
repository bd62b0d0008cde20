//! What the command line selects: label selectors, the namespaces to watch,
//! the matchers that include and exclude containers, and where reading starts.
use vstd::prelude::*;
use crate::matcher::{
    Matcher, RegexMatcher, LabelSelectorMatcher, PatternError, labels_satisfy, regex_finds,
    regex_compiles,
};
use crate::keyed::keyed_map;
use crate::pod::{ContainerInfo, PodInfo, PodView, pairs_view};
use crate::text::{
    split_on, trim, chars_of, split_exec, trim_exec, string_of, append_str, lemma_split_concat,
    lemma_split_without_separator,
};
use crate::time::{SinceValue, SinceError, parse_since, duration_seconds, rfc3339_instant};

verus! {

// ---------------------------------------------------------------------------
// Label selectors
// ---------------------------------------------------------------------------
/// One `key=value` piece of a selector: exactly one `=`, both sides trimmed.
pub open spec fn selector_pair(piece: Seq<char>) -> Option<(Seq<char>, Seq<char>)> {
    let parts = split_on(piece, '=');
    if parts.len() == 2 {
        Some((trim(parts[0]), trim(parts[1])))
    } else {
        None
    }
}

/// The comma-separated pieces of a selector.
pub open spec fn selector_pieces(selector: Seq<char>) -> Seq<Seq<char>> {
    split_on(selector, ',')
}

/// Whether every piece of the selector is a `key=value` pair.
pub open spec fn selector_valid(selector: Seq<char>) -> bool {
    forall|i: int|
        0 <= i < selector_pieces(selector).len() ==> #[trigger] selector_pair(
            selector_pieces(selector)[i],
        ) is Some
}

/// The pairs of a valid selector, in the order they are written.
pub open spec fn selector_pairs(selector: Seq<char>) -> Seq<(Seq<char>, Seq<char>)> {
    Seq::new(
        selector_pieces(selector).len(),
        |i: int| selector_pair(selector_pieces(selector)[i])->0,
    )
}

/// A label selector that is not a comma-separated list of `key=value` pairs.
pub struct SelectorError {
    pub selector: String,
}

impl SelectorError {
    /// The message that reports the error.
    pub fn message(&self) -> (m: String)
        ensures
            m@ == "Invalid label selector: "@ + self.selector@,
    {
        let mut v: Vec<char> = Vec::new();
        append_str(&mut v, "Invalid label selector: ");
        append_str(&mut v, self.selector.as_str());
        string_of(&v)
    }
}

/// Reads a selector such as `app=web, tier = front`: the pairs in the order
/// written (where a key repeats, the matcher built from them keeps the later
/// value), or an error when a piece does not hold exactly one `=`.
pub fn parse_label_selector(selector: &str) -> (r: Result<Vec<(String, String)>, SelectorError>)
    ensures
        r is Ok <==> selector_valid(selector@),
        r matches Ok(v) ==> pairs_view(v@) == selector_pairs(selector@),
        r matches Err(e) ==> e.selector@ == selector@,
{
    let chars = chars_of(selector);
    let pieces = split_exec(&chars, ',');
    let ghost ps = selector_pieces(selector@);
    let mut out: Vec<(String, String)> = Vec::new();
    let mut i: usize = 0;
    while i < pieces.len()
        invariant
            pieces@.map_values(|p: Vec<char>| p@) == ps,
            ps == selector_pieces(selector@),
            i <= pieces@.len(),
            out@.len() == i,
            forall|j: int| 0 <= j < i ==> #[trigger] selector_pair(ps[j]) is Some,
            forall|j: int|
                0 <= j < i ==> #[trigger] pairs_view(out@)[j] == selector_pair(ps[j])->0,
        decreases pieces@.len() - i,
    {
        assert(pieces@[i as int]@ == ps[i as int]);
        let parts = split_exec(&pieces[i], '=');
        if parts.len() != 2 {
            assert(selector_pair(ps[i as int]) is None);
            return Err(SelectorError { selector: selector.to_string() });
        }
        assert(parts@[0]@ == split_on(ps[i as int], '=')[0]);
        assert(parts@[1]@ == split_on(ps[i as int], '=')[1]);
        let key = trim_exec(&parts[0]);
        let value = trim_exec(&parts[1]);
        let ghost before = out@;
        out.push((string_of(&key), string_of(&value)));
        assert forall|j: int| 0 <= j < i + 1 implies #[trigger] pairs_view(out@)[j]
            == selector_pair(ps[j])->0 by {
            if j < i {
                assert(out@[j] == before[j]);
                assert(pairs_view(before)[j] == selector_pair(ps[j])->0);
            } else {
                assert(split_on(ps[j], '=').len() == 2);
                assert(out@[j].0@ == key@ && out@[j].1@ == value@);
                assert(pairs_view(out@)[j] == (key@, value@));
                assert(selector_pair(ps[j])->0 == (trim(split_on(ps[j], '=')[0]), trim(split_on(ps[j], '=')[1])));
            }
        }
        i = i + 1;
    }
    assert(pairs_view(out@) =~= selector_pairs(selector@));
    Ok(out)
}

// ---------------------------------------------------------------------------
// Namespaces
// ---------------------------------------------------------------------------
/// The namespaces to watch: every namespace (`*`) when asked for all, else
/// the ones given, else `default`.
pub open spec fn namespaces_spec(all_namespaces: bool, given: Seq<Seq<char>>) -> Seq<Seq<char>> {
    if all_namespaces {
        seq!["*"@]
    } else if given.len() > 0 {
        given
    } else {
        seq!["default"@]
    }
}

/// The namespaces to watch.
pub fn target_namespaces(all_namespaces: bool, given: Vec<String>) -> (r: Vec<String>)
    ensures
        r@.map_values(|s: String| s@) == namespaces_spec(
            all_namespaces,
            given@.map_values(|s: String| s@),
        ),
{
    if all_namespaces {
        let r = vec!["*".to_string()];
        assert(r@.map_values(|s: String| s@) =~= seq!["*"@]);
        r
    } else if given.len() > 0 {
        given
    } else {
        let r = vec!["default".to_string()];
        assert(r@.map_values(|s: String| s@) =~= seq!["default"@]);
        r
    }
}

// ---------------------------------------------------------------------------
// Matchers
// ---------------------------------------------------------------------------
/// Why the matchers could not be built.
pub enum MatcherError {
    Pattern(PatternError),
    Selector(SelectorError),
}

/// Whether every pattern compiles.
pub open spec fn all_compile(patterns: Seq<Seq<char>>) -> bool {
    forall|i: int| 0 <= i < patterns.len() ==> #[trigger] regex_compiles(patterns[i])
}

/// Whether one of the patterns finds a match in the text.
pub open spec fn any_finds(patterns: Seq<Seq<char>>, text: Seq<char>) -> bool {
    exists|i: int| 0 <= i < patterns.len() && #[trigger] regex_finds(patterns[i], text)
}

/// Whether one of the patterns finds a match in the pod's name.
pub open spec fn any_finds_name(patterns: Seq<Seq<char>>, pod: PodView) -> bool {
    match pod.name {
        Some(name) => any_finds(patterns, name),
        None => false,
    }
}

/// Whether every selector is valid.
pub open spec fn all_valid(selectors: Seq<Seq<char>>) -> bool {
    forall|i: int| 0 <= i < selectors.len() ==> #[trigger] selector_valid(selectors[i])
}

/// Whether the pod satisfies one of the selectors.
pub open spec fn any_selector_holds(selectors: Seq<Seq<char>>, pod: PodView) -> bool {
    exists|i: int|
        0 <= i < selectors.len() && #[trigger] labels_satisfy(
            keyed_map(selector_pairs(selectors[i])),
            pod.labels,
        )
}

/// The texts of a list of strings.
pub open spec fn texts(v: Seq<String>) -> Seq<Seq<char>> {
    v.map_values(|s: String| s@)
}

/// Compiles each pattern, in order; the first that does not compile is
/// reported.
fn compile_all(patterns: &Vec<String>) -> (r: Result<Vec<RegexMatcher>, PatternError>)
    ensures
        r is Ok <==> all_compile(texts(patterns@)),
        r matches Ok(v) ==> v@.len() == patterns@.len() && forall|i: int|
            0 <= i < v@.len() ==> #[trigger] v@[i]@ == texts(patterns@)[i],
        r matches Err(e) ==> exists|i: int|
            0 <= i < patterns@.len() && !regex_compiles(#[trigger] texts(patterns@)[i])
                && e.pattern@ == texts(patterns@)[i],
{
    let ghost pats = texts(patterns@);
    let mut out: Vec<RegexMatcher> = Vec::new();
    let mut i: usize = 0;
    while i < patterns.len()
        invariant
            pats == texts(patterns@),
            i <= patterns@.len(),
            out@.len() == i,
            forall|j: int| 0 <= j < i ==> #[trigger] regex_compiles(pats[j]),
            forall|j: int| 0 <= j < i ==> #[trigger] out@[j]@ == pats[j],
        decreases patterns@.len() - i,
    {
        assert(patterns@[i as int]@ == pats[i as int]);
        match RegexMatcher::new(patterns[i].as_str()) {
            Ok(m) => {
                out.push(m);
            },
            Err(e) => {
                assert(!regex_compiles(pats[i as int]));
                return Err(e);
            },
        }
        i = i + 1;
    }
    Ok(out)
}

/// Reads each label selector, in order; the first that is not valid is
/// reported.
fn read_selectors(selectors: &Vec<String>) -> (r: Result<Vec<LabelSelectorMatcher>, SelectorError>)
    ensures
        r is Ok <==> all_valid(texts(selectors@)),
        r matches Ok(v) ==> v@.len() == selectors@.len() && forall|i: int|
            0 <= i < v@.len() ==> #[trigger] v@[i]@ == keyed_map(
                selector_pairs(texts(selectors@)[i]),
            ),
        r matches Err(e) ==> exists|i: int|
            0 <= i < selectors@.len() && !selector_valid(#[trigger] texts(selectors@)[i])
                && e.selector@ == texts(selectors@)[i],
{
    let ghost sels = texts(selectors@);
    let mut out: Vec<LabelSelectorMatcher> = Vec::new();
    let mut i: usize = 0;
    while i < selectors.len()
        invariant
            sels == texts(selectors@),
            i <= selectors@.len(),
            out@.len() == i,
            forall|j: int| 0 <= j < i ==> #[trigger] selector_valid(sels[j]),
            forall|j: int| 0 <= j < i ==> #[trigger] out@[j]@ == keyed_map(selector_pairs(sels[j])),
        decreases selectors@.len() - i,
    {
        assert(selectors@[i as int]@ == sels[i as int]);
        match parse_label_selector(selectors[i].as_str()) {
            Ok(pairs) => {
                out.push(LabelSelectorMatcher::new(pairs));
            },
            Err(e) => {
                return Err(e);
            },
        }
        i = i + 1;
    }
    Ok(out)
}

/// The matcher that the command line asks for: any of several patterns, any
/// of several label selectors, or one pattern.
pub enum Selection {
    AnyPattern(Vec<RegexMatcher>),
    AnyLabelSet(Vec<LabelSelectorMatcher>),
    Single(RegexMatcher),
}

impl Matcher for Selection {
    open spec fn pod_matches(&self, pod: PodView) -> bool {
        match self {
            Selection::AnyPattern(v) => exists|i: int|
                0 <= i < v@.len() && #[trigger] v@[i].pod_matches(pod),
            Selection::AnyLabelSet(v) => exists|i: int|
                0 <= i < v@.len() && #[trigger] v@[i].pod_matches(pod),
            Selection::Single(m) => m.pod_matches(pod),
        }
    }

    open spec fn container_matches(&self, pod: PodView, container: Seq<char>) -> bool {
        match self {
            Selection::AnyPattern(v) => exists|i: int|
                0 <= i < v@.len() && #[trigger] v@[i].container_matches(pod, container),
            Selection::AnyLabelSet(v) => exists|i: int|
                0 <= i < v@.len() && #[trigger] v@[i].container_matches(pod, container),
            Selection::Single(m) => m.container_matches(pod, container),
        }
    }

    #[verifier::loop_isolation(false)]
    fn matches_pod(&self, pod: &PodInfo) -> (b: bool) {
        match self {
            Selection::AnyPattern(v) => {
                let mut i: usize = 0;
                while i < v.len()
                    invariant
                        i <= v@.len(),
                        forall|j: int| 0 <= j < i ==> !#[trigger] v@[j].pod_matches(pod@),
                    decreases v@.len() - i,
                {
                    if v[i].matches_pod(pod) {
                        assert(v@[i as int].pod_matches(pod@));
                        return true;
                    }
                    i = i + 1;
                }
                false
            },
            Selection::AnyLabelSet(v) => {
                let mut i: usize = 0;
                while i < v.len()
                    invariant
                        i <= v@.len(),
                        forall|j: int| 0 <= j < i ==> !#[trigger] v@[j].pod_matches(pod@),
                    decreases v@.len() - i,
                {
                    if v[i].matches_pod(pod) {
                        assert(v@[i as int].pod_matches(pod@));
                        return true;
                    }
                    i = i + 1;
                }
                false
            },
            Selection::Single(m) => m.matches_pod(pod),
        }
    }

    #[verifier::loop_isolation(false)]
    fn matches_container(&self, pod: &PodInfo, container: &ContainerInfo) -> (b: bool) {
        match self {
            Selection::AnyPattern(v) => {
                let mut i: usize = 0;
                while i < v.len()
                    invariant
                        i <= v@.len(),
                        forall|j: int|
                            0 <= j < i ==> !#[trigger] v@[j].container_matches(pod@, container@),
                    decreases v@.len() - i,
                {
                    if v[i].matches_container(pod, container) {
                        assert(v@[i as int].container_matches(pod@, container@));
                        return true;
                    }
                    i = i + 1;
                }
                false
            },
            Selection::AnyLabelSet(v) => {
                let mut i: usize = 0;
                while i < v.len()
                    invariant
                        i <= v@.len(),
                        forall|j: int|
                            0 <= j < i ==> !#[trigger] v@[j].container_matches(pod@, container@),
                    decreases v@.len() - i,
                {
                    if v[i].matches_container(pod, container) {
                        assert(v@[i as int].container_matches(pod@, container@));
                        return true;
                    }
                    i = i + 1;
                }
                false
            },
            Selection::Single(m) => m.matches_container(pod, container),
        }
    }
}

/// Whether the pattern finds a match in the pod's name.
pub open spec fn finds_name(pattern: Seq<char>, pod: PodView) -> bool {
    match pod.name {
        Some(name) => regex_finds(pattern, name),
        None => false,
    }
}

/// Any of the compiled patterns selects what one of the patterns finds.
proof fn lemma_any_pattern(sel: Selection, pats: Seq<Seq<char>>)
    requires
        sel is AnyPattern,
        sel->AnyPattern_0@.len() == pats.len(),
        forall|i: int| 0 <= i < pats.len() ==> #[trigger] sel->AnyPattern_0@[i]@ == pats[i],
    ensures
        forall|p: PodView| #[trigger] sel.pod_matches(p) == any_finds_name(pats, p),
        forall|p: PodView, c: Seq<char>| #[trigger]
            sel.container_matches(p, c) == any_finds(pats, c),
{
    let v = sel->AnyPattern_0@;
    assert forall|p: PodView| #[trigger] sel.pod_matches(p) == any_finds_name(pats, p) by {
        if sel.pod_matches(p) {
            let i = choose|i: int| 0 <= i < v.len() && #[trigger] v[i].pod_matches(p);
            assert(v[i]@ == pats[i]);
            assert(regex_finds(pats[i], p.name->0));
        }
        if any_finds_name(pats, p) {
            let name = p.name->0;
            let i = choose|i: int| 0 <= i < pats.len() && #[trigger] regex_finds(pats[i], name);
            assert(v[i]@ == pats[i]);
            assert(v[i].pod_matches(p));
        }
    }
    assert forall|p: PodView, c: Seq<char>| #[trigger]
        sel.container_matches(p, c) == any_finds(pats, c) by {
        if sel.container_matches(p, c) {
            let i = choose|i: int| 0 <= i < v.len() && #[trigger] v[i].container_matches(p, c);
            assert(v[i]@ == pats[i]);
            assert(regex_finds(pats[i], c));
        }
        if any_finds(pats, c) {
            let i = choose|i: int| 0 <= i < pats.len() && #[trigger] regex_finds(pats[i], c);
            assert(v[i]@ == pats[i]);
            assert(v[i].container_matches(p, c));
        }
    }
}

/// Any of the label sets selects the pods that satisfy one of the selectors,
/// and no container by name.
proof fn lemma_any_labels(sel: Selection, sels: Seq<Seq<char>>)
    requires
        sel is AnyLabelSet,
        sel->AnyLabelSet_0@.len() == sels.len(),
        forall|i: int|
            0 <= i < sels.len() ==> #[trigger] sel->AnyLabelSet_0@[i]@ == keyed_map(
                selector_pairs(sels[i]),
            ),
    ensures
        forall|p: PodView| #[trigger] sel.pod_matches(p) == any_selector_holds(sels, p),
        forall|p: PodView, c: Seq<char>| !#[trigger] sel.container_matches(p, c),
{
    let v = sel->AnyLabelSet_0@;
    assert forall|p: PodView| #[trigger] sel.pod_matches(p) == any_selector_holds(sels, p) by {
        if sel.pod_matches(p) {
            let i = choose|i: int| 0 <= i < v.len() && #[trigger] v[i].pod_matches(p);
            assert(v[i]@ == keyed_map(selector_pairs(sels[i])));
            assert(labels_satisfy(keyed_map(selector_pairs(sels[i])), p.labels));
        }
        if any_selector_holds(sels, p) {
            let i = choose|i: int|
                0 <= i < sels.len() && #[trigger] labels_satisfy(
                    keyed_map(selector_pairs(sels[i])),
                    p.labels,
                );
            assert(v[i]@ == keyed_map(selector_pairs(sels[i])));
            assert(v[i].pod_matches(p));
        }
    }
}

/// The matcher of the containers to tail: any of the patterns when some are
/// given, else any of the label selectors when some are given, else every
/// name (`.*`).
pub fn inclusion_matcher(patterns: &Vec<String>, selectors: &Vec<String>) -> (r: Result<
    Selection,
    MatcherError,
>)
    ensures
        patterns@.len() > 0 ==> {
            &&& r is Ok <==> all_compile(texts(patterns@))
            &&& r matches Ok(m) ==> (forall|p: PodView| #[trigger]
                m.pod_matches(p) == any_finds_name(texts(patterns@), p))
            &&& r matches Ok(m) ==> (forall|p: PodView, c: Seq<char>| #[trigger]
                m.container_matches(p, c) == any_finds(texts(patterns@), c))
            &&& r matches Err(e) ==> (e matches MatcherError::Pattern(p) && exists|i: int|
                0 <= i < patterns@.len() && !regex_compiles(#[trigger] texts(patterns@)[i])
                    && p.pattern@ == texts(patterns@)[i])
        },
        patterns@.len() == 0 && selectors@.len() > 0 ==> {
            &&& r is Ok <==> all_valid(texts(selectors@))
            &&& r matches Ok(m) ==> (forall|p: PodView| #[trigger]
                m.pod_matches(p) == any_selector_holds(texts(selectors@), p))
            &&& r matches Ok(m) ==> (forall|p: PodView, c: Seq<char>|
                !#[trigger] m.container_matches(p, c))
            &&& r matches Err(e) ==> (e matches MatcherError::Selector(x) && exists|i: int|
                0 <= i < selectors@.len() && !selector_valid(#[trigger] texts(selectors@)[i])
                    && x.selector@ == texts(selectors@)[i])
        },
        patterns@.len() == 0 && selectors@.len() == 0 ==> {
            &&& r is Ok <==> regex_compiles(".*"@)
            &&& r matches Ok(m) ==> (forall|p: PodView| #[trigger]
                m.pod_matches(p) == finds_name(".*"@, p))
            &&& r matches Ok(m) ==> (forall|p: PodView, c: Seq<char>| #[trigger]
                m.container_matches(p, c) == regex_finds(".*"@, c))
            &&& r matches Err(e) ==> (e matches MatcherError::Pattern(p) && p.pattern@ == ".*"@)
        },
{
    if patterns.len() > 0 {
        match compile_all(patterns) {
            Ok(v) => {
                let r = Selection::AnyPattern(v);
                proof {
                    lemma_any_pattern(r, texts(patterns@));
                }
                Ok(r)
            },
            Err(e) => Err(MatcherError::Pattern(e)),
        }
    } else if selectors.len() > 0 {
        match read_selectors(selectors) {
            Ok(v) => {
                let r = Selection::AnyLabelSet(v);
                proof {
                    lemma_any_labels(r, texts(selectors@));
                }
                Ok(r)
            },
            Err(e) => Err(MatcherError::Selector(e)),
        }
    } else {
        match RegexMatcher::new(".*") {
            Ok(m) => Ok(Selection::Single(m)),
            Err(e) => Err(MatcherError::Pattern(e)),
        }
    }
}

/// The matcher of the containers to leave out: any of the patterns when some
/// are given, else one that matches nothing (`\b\B`).
pub fn exclusion_matcher(patterns: &Vec<String>) -> (r: Result<Selection, PatternError>)
    ensures
        patterns@.len() > 0 ==> {
            &&& r is Ok <==> all_compile(texts(patterns@))
            &&& r matches Ok(m) ==> (forall|p: PodView| #[trigger]
                m.pod_matches(p) == any_finds_name(texts(patterns@), p))
            &&& r matches Ok(m) ==> (forall|p: PodView, c: Seq<char>| #[trigger]
                m.container_matches(p, c) == any_finds(texts(patterns@), c))
            &&& r matches Err(e) ==> exists|i: int|
                0 <= i < patterns@.len() && !regex_compiles(#[trigger] texts(patterns@)[i])
                    && e.pattern@ == texts(patterns@)[i]
        },
        patterns@.len() == 0 ==> {
            &&& r is Ok <==> regex_compiles("\\b\\B"@)
            &&& r matches Ok(m) ==> (forall|p: PodView| #[trigger]
                m.pod_matches(p) == finds_name("\\b\\B"@, p))
            &&& r matches Ok(m) ==> (forall|p: PodView, c: Seq<char>| #[trigger]
                m.container_matches(p, c) == regex_finds("\\b\\B"@, c))
            &&& r matches Err(e) ==> e.pattern@ == "\\b\\B"@
        },
{
    if patterns.len() > 0 {
        match compile_all(patterns) {
            Ok(v) => {
                let r = Selection::AnyPattern(v);
                proof {
                    lemma_any_pattern(r, texts(patterns@));
                }
                Ok(r)
            },
            Err(e) => Err(e),
        }
    } else {
        match RegexMatcher::new("\\b\\B") {
            Ok(m) => Ok(Selection::Single(m)),
            Err(e) => Err(e),
        }
    }
}

// ---------------------------------------------------------------------------
// Where reading starts
// ---------------------------------------------------------------------------
/// Where each container's log is read from: from its start (`None`) when
/// asked, else from the `--since` value, else from now (no time ago).
pub fn start_point(since_start: bool, since: Option<&str>) -> (r: Result<Option<SinceValue>, SinceError>)
    ensures
        since_start ==> r == Ok::<Option<SinceValue>, SinceError>(None),
        !since_start && since is None ==> (r matches Ok(Some(SinceValue::Ago(d))) && d == 0),
        !since_start && since is Some ==> (match duration_seconds(since->0@) {
            Some(d) => r matches Ok(Some(SinceValue::Ago(x))) && x == d,
            None => match rfc3339_instant(since->0@ + "T00:00:00Z"@) {
                Some(p) => r matches Ok(Some(SinceValue::At(t))) && (t.secs, t.nanos) == p,
                None => r matches Err(e) && e.value@ == since->0@,
            },
        }),
{
    if since_start {
        Ok(None)
    } else {
        match since {
            Some(text) => match parse_since(text) {
                Ok(v) => Ok(Some(v)),
                Err(e) => Err(e),
            },
            None => Ok(Some(SinceValue::Ago(0))),
        }
    }
}

// ---------------------------------------------------------------------------
// Laws
// ---------------------------------------------------------------------------
/// The namespaces watched are every namespace when all are asked for, else
/// exactly the ones given (one or more), else `default`.
pub proof fn lemma_namespaces_watched(all_namespaces: bool, given: Seq<Seq<char>>)
    ensures
        all_namespaces ==> namespaces_spec(all_namespaces, given) == seq!["*"@],
        !all_namespaces && given.len() >= 1 ==> namespaces_spec(all_namespaces, given) == given,
        !all_namespaces && given.len() == 0 ==> namespaces_spec(all_namespaces, given) == seq![
            "default"@,
        ],
{
}

/// A matcher of several patterns (or label selectors) selects what any one
/// of them selects, however many others also do, and nothing else; a single
/// pattern selects what it selects.
pub proof fn lemma_selection_is_any_of(sel: Selection, pod: PodView, container: Seq<char>, i: int)
    ensures
        sel matches Selection::AnyPattern(v) && 0 <= i < v@.len() && v@[i].pod_matches(pod)
            ==> sel.pod_matches(pod),
        sel matches Selection::AnyPattern(v) && 0 <= i < v@.len() && v@[i].container_matches(
            pod,
            container,
        ) ==> sel.container_matches(pod, container),
        sel matches Selection::AnyLabelSet(v) && 0 <= i < v@.len() && v@[i].pod_matches(pod)
            ==> sel.pod_matches(pod),
        sel is AnyPattern && sel.pod_matches(pod) ==> exists|j: int|
            0 <= j < sel->AnyPattern_0@.len() && #[trigger] sel->AnyPattern_0@[j].pod_matches(pod),
        sel is AnyLabelSet && sel.pod_matches(pod) ==> exists|j: int|
            0 <= j < sel->AnyLabelSet_0@.len() && #[trigger] sel->AnyLabelSet_0@[j].pod_matches(
                pod,
            ),
        sel is AnyPattern && sel.container_matches(pod, container) ==> exists|j: int|
            0 <= j < sel->AnyPattern_0@.len()
                && #[trigger] sel->AnyPattern_0@[j].container_matches(pod, container),
        sel matches Selection::Single(m) ==> sel.pod_matches(pod) == m.pod_matches(pod)
            && sel.container_matches(pod, container) == m.container_matches(pod, container),
{
}

/// Patterns take precedence: with at least one pattern, a pod is included
/// when one of the patterns finds a match in its name, and a container when
/// one finds a match in the container's name. With label selectors only, a
/// pod is included when it satisfies one of them.
pub proof fn lemma_any_finds_one(patterns: Seq<Seq<char>>, text: Seq<char>, i: int)
    requires
        0 <= i < patterns.len(),
        regex_finds(patterns[i], text),
    ensures
        any_finds(patterns, text),
{
}

/// A pod that satisfies one selector is included by the selectors.
pub proof fn lemma_any_selector_holds_one(selectors: Seq<Seq<char>>, pod: PodView, i: int)
    requires
        0 <= i < selectors.len(),
        labels_satisfy(keyed_map(selector_pairs(selectors[i])), pod.labels),
    ensures
        any_selector_holds(selectors, pod),
{
}

/// A selector piece `key=value` (neither side holding `,` or `=`) is valid
/// and gives the key and the value, each without surrounding white space.
pub proof fn lemma_selector_single_pair(key: Seq<char>, value: Seq<char>)
    requires
        !key.contains(','),
        !key.contains('='),
        !value.contains(','),
        !value.contains('='),
    ensures
        selector_valid(key + seq!['='] + value),
        selector_pairs(key + seq!['='] + value) == seq![(trim(key), trim(value))],
{
    let piece = key + seq!['='] + value;
    assert(!piece.contains(',')) by {
        if piece.contains(',') {
            let i = choose|i: int| 0 <= i < piece.len() && piece[i] == ',';
            if i < key.len() {
                assert(key[i] == ',');
                assert(key.contains(key[i]));
            } else if i > key.len() {
                assert(value[i - key.len() - 1] == ',');
                assert(value.contains(value[i - key.len() - 1]));
            }
        }
    }
    lemma_split_without_separator(piece, ',');
    lemma_split_concat(key, '=', value);
    lemma_split_without_separator(key, '=');
    lemma_split_without_separator(value, '=');
    assert(split_on(piece, '=') =~= seq![key, value]);
    assert(selector_pieces(piece) =~= seq![piece]);
    assert(selector_pairs(piece) =~= seq![(trim(key), trim(value))]);
}

/// A piece without `=` (nor `,`) makes the selector invalid.
pub proof fn lemma_selector_piece_needs_equals(piece: Seq<char>)
    requires
        !piece.contains(','),
        !piece.contains('='),
    ensures
        !selector_valid(piece),
{
    lemma_split_without_separator(piece, ',');
    lemma_split_without_separator(piece, '=');
    assert(selector_pieces(piece) =~= seq![piece]);
    assert(selector_pair(selector_pieces(piece)[0]) is None);
}

/// Selectors joined by `,`: the result is valid exactly when both are, and
/// its pairs are those of the first followed by those of the second.
pub proof fn lemma_selector_concat(a: Seq<char>, b: Seq<char>)
    ensures
        selector_valid(a + seq![','] + b) <==> (selector_valid(a) && selector_valid(b)),
        selector_pairs(a + seq![','] + b) == selector_pairs(a) + selector_pairs(b),
{
    let pa = selector_pieces(a);
    let pb = selector_pieces(b);
    lemma_split_concat(a, ',', b);
    let p = selector_pieces(a + seq![','] + b);
    assert(p == pa + pb);
    assert(selector_valid(a + seq![','] + b) ==> selector_valid(a)) by {
        if selector_valid(a + seq![','] + b) {
            assert forall|i: int| 0 <= i < pa.len() implies #[trigger] selector_pair(pa[i]) is Some by {
                assert(p[i] == pa[i]);
                assert(selector_pair(p[i]) is Some);
            }
        }
    }
    assert(selector_valid(a + seq![','] + b) ==> selector_valid(b)) by {
        if selector_valid(a + seq![','] + b) {
            assert forall|i: int| 0 <= i < pb.len() implies #[trigger] selector_pair(pb[i]) is Some by {
                assert(p[pa.len() + i] == pb[i]);
                assert(selector_pair(p[pa.len() + i]) is Some);
            }
        }
    }
    assert(selector_valid(a) && selector_valid(b) ==> selector_valid(a + seq![','] + b)) by {
        if selector_valid(a) && selector_valid(b) {
            assert forall|i: int| 0 <= i < p.len() implies #[trigger] selector_pair(p[i]) is Some by {
                if i < pa.len() {
                    assert(p[i] == pa[i]);
                    assert(selector_pair(pa[i]) is Some);
                } else {
                    assert(p[i] == pb[i - pa.len()]);
                    assert(selector_pair(pb[i - pa.len()]) is Some);
                }
            }
        }
    }
    assert(selector_pairs(a + seq![','] + b) =~= selector_pairs(a) + selector_pairs(b)) by {
        assert forall|i: int| 0 <= i < p.len() implies selector_pairs(a + seq![','] + b)[i] == (
        selector_pairs(a) + selector_pairs(b))[i] by {
            if i < pa.len() {
                assert(p[i] == pa[i]);
            } else {
                assert(p[i] == pb[i - pa.len()]);
            }
        }
    }
}

} // verus!
