//! Container filters and the container routes of the Docker API.

use vstd::prelude::*;

use crate::config::{AppConfig, ContainerLabels, ContainerNames};
use crate::text::is_substring;
use crate::utils::{label_match, labels_match, some_contains, strings_in_strings, Labels};

pub mod types;

use types::ContainerSummary;

verus! {

/// A request path that addresses one container: its id and the resource asked for.
pub struct GetMatch {
    pub id: String,
    pub resource: String,
}

/// The pattern of container routes: `containers/<id>/<resource>`, the id running
/// up to the next `/`.
pub open spec fn container_route_pattern() -> Seq<char> {
    "containers/(?<id>[^/]+)/(?<resource>.+)"@
}

/// First position at or after `i` that holds `stop` (or the end of `s`).
pub open spec fn run_end(s: Seq<char>, i: int, stop: char) -> int
    decreases s.len() - i,
{
    if i < 0 || i >= s.len() || s[i] == stop {
        i
    } else {
        run_end(s, i + 1, stop)
    }
}

/// The container route that starts at position `p` of `s`, if one does: the text
/// `containers/`, a non-empty id free of `/` taken as long as possible, a `/`, and
/// a non-empty resource running up to the end of the line.
pub open spec fn route_at(s: Seq<char>, p: int) -> Option<(Seq<char>, Seq<char>)> {
    let prefix = "containers/"@;
    let a = p + prefix.len();
    let b = run_end(s, a, '/');
    let c = b + 1;
    let d = run_end(s, c, '\n');
    if 0 <= p && a <= s.len() && s.subrange(p, a) == prefix && a < b && b < s.len() && c < d {
        Some((s.subrange(a, b), s.subrange(c, d)))
    } else {
        None
    }
}

/// The id and resource of the leftmost container route in `s`, as the route
/// pattern captures them.
pub open spec fn container_route_of(s: Seq<char>) -> Option<(Seq<char>, Seq<char>)> {
    if exists|p: int| #[trigger] route_at(s, p) is Some {
        route_at(s, choose|p: int| route_at(s, p) is Some && forall|q: int| 0 <= q < p ==> route_at(s, q) is None)
    } else {
        None
    }
}

/// What the regex crate yields when `pattern` is searched in `haystack` and the
/// capture groups named `first` and `second` are read; `None` when the pattern
/// does not compile, does not match, or a group did not take part in the match.
pub uninterp spec fn regex_named_pair(
    pattern: Seq<char>,
    haystack: Seq<char>,
    first: Seq<char>,
    second: Seq<char>,
) -> Option<(Seq<char>, Seq<char>)>;

/// A run that holds no `stop` and is followed by `stop` (or the end) ends there.
proof fn lemma_run_end(s: Seq<char>, i: int, j: int, stop: char)
    requires
        0 <= i <= j <= s.len(),
        forall|k: int| i <= k < j ==> s[k] != stop,
        j == s.len() || s[j] == stop,
    ensures
        run_end(s, i, stop) == j,
    decreases j - i,
{
    if i < j {
        lemma_run_end(s, i + 1, j, stop);
    }
}

/// The route at the position right after `a` in `a + containers/ + id + / + resource + rest`.
proof fn lemma_route_at_split(a: Seq<char>, id: Seq<char>, resource: Seq<char>, rest: Seq<char>)
    requires
        id.len() > 0,
        forall|i: int| 0 <= i < id.len() ==> id[i] != '/',
        resource.len() > 0,
        forall|i: int| 0 <= i < resource.len() ==> resource[i] != '\n',
        rest.len() == 0 || rest[0] == '\n',
    ensures
        route_at(a + "containers/"@ + id + "/"@ + resource + rest, a.len() as int) == Some((id, resource)),
{
    reveal_strlit("/");
    let prefix = "containers/"@;
    let s = a + prefix + id + "/"@ + resource + rest;
    let p0 = a.len() as int;
    let start = p0 + prefix.len();
    let b = start + id.len();
    let c = b + 1;
    let d = c + resource.len();
    assert(s.subrange(p0, start) =~= prefix);
    assert forall|k: int| start <= k < b implies s[k] != '/' by {
        assert(s[k] == id[k - start]);
    }
    assert(s[b] == '/');
    lemma_run_end(s, start, b, '/');
    assert forall|k: int| c <= k < d implies s[k] != '\n' by {
        assert(s[k] == resource[k - c]);
    }
    if d < s.len() {
        assert(s[d] == rest[0]);
    }
    lemma_run_end(s, c, d, '\n');
    assert(s.subrange(start, b) =~= id);
    assert(s.subrange(c, d) =~= resource);
}

/// No route starts inside `a` when `a` holds no `containers`.
proof fn lemma_no_route_before(a: Seq<char>, tail: Seq<char>, q: int)
    requires
        !is_substring("containers"@, a),
        0 <= q < a.len(),
    ensures
        route_at(a + "containers/"@ + tail, q) is None,
{
    reveal_strlit("containers/");
    reveal_strlit("containers");
    let prefix = "containers/"@;
    let s = a + prefix + tail;
    let p0 = a.len() as int;
    if route_at(s, q) is Some {
        assert(s.subrange(q, q + 11) == prefix);
        if q + 10 <= p0 {
            assert(a.subrange(q, q + 10) =~= "containers"@) by {
                assert forall|k: int| 0 <= k < 10 implies a.subrange(q, q + 10)[k] == "containers"@[k] by {
                    assert(s[q + k] == s.subrange(q, q + 11)[k]);
                    assert(s[q + k] == a[q + k]);
                }
            }
            assert(is_substring("containers"@, a));
        } else {
            let k = p0 - q;
            assert(s[p0] == 'c');
            assert(s[p0] == s.subrange(q, q + 11)[k]);
            assert(prefix[k] != 'c');
        }
    }
}

/// A path `a` + `containers/` + `id` + `/` + `resource` + `rest`, with a non-empty
/// id free of `/`, a non-empty resource free of line breaks, `rest` empty or
/// starting a new line, and no earlier `containers` in `a`, is the route of that
/// id and resource. Any id without `/` is recognised, a container name as well as
/// a hexadecimal id.
pub proof fn lemma_route_recognised(a: Seq<char>, id: Seq<char>, resource: Seq<char>, rest: Seq<char>)
    requires
        id.len() > 0,
        forall|i: int| 0 <= i < id.len() ==> id[i] != '/',
        resource.len() > 0,
        forall|i: int| 0 <= i < resource.len() ==> resource[i] != '\n',
        rest.len() == 0 || rest[0] == '\n',
        !is_substring("containers"@, a),
    ensures
        container_route_of(a + "containers/"@ + id + "/"@ + resource + rest) == Some((id, resource)),
{
    let tail = id + "/"@ + resource + rest;
    let s = a + "containers/"@ + id + "/"@ + resource + rest;
    assert(s =~= a + "containers/"@ + tail);
    let p0 = a.len() as int;
    lemma_route_at_split(a, id, resource, rest);
    assert forall|q: int| 0 <= q < p0 implies #[trigger] route_at(s, q) is None by {
        lemma_no_route_before(a, tail, q);
    }
    assert(route_at(s, p0) is Some);
    let pm = choose|p: int| route_at(s, p) is Some && forall|q: int| 0 <= q < p ==> route_at(s, q) is None;
    assert(route_at(s, p0) is Some && forall|q: int| 0 <= q < p0 ==> route_at(s, q) is None);
    if pm < p0 {
        if pm >= 0 {
            assert(route_at(s, pm) is None);
        }
    } else if pm > p0 {
        assert(route_at(s, p0) is None);
    }
}

/// The texts of an optional pair of strings.
pub open spec fn pair_view(p: Option<(String, String)>) -> Option<(Seq<char>, Seq<char>)> {
    match p {
        Some((a, b)) => Some((a@, b@)),
        None => None,
    }
}

/// The texts of an optional route match.
pub open spec fn get_match_view(m: Option<GetMatch>) -> Option<(Seq<char>, Seq<char>)> {
    match m {
        Some(g) => Some((g.id@, g.resource@)),
        None => None,
    }
}

/// Compiles `pattern` with `regex::Regex::new`, searches `haystack` with
/// `Regex::captures` and reads the groups `first` and `second` with
/// `Captures::name`. Trusted to return exactly `regex_named_pair` of its
/// arguments (the crate is deterministic), and, as the crate documents for
/// `Match::as_str`, each captured text is a piece of the haystack. For the
/// container route pattern, the crate's documented leftmost-first search with
/// greedy repetition (`[^/]` any character but `/`, `.` any but a newline)
/// yields `container_route_of`; for other patterns the match is only named.
#[verifier::external_body]
fn regex_capture_pair(pattern: &str, haystack: &str, first: &str, second: &str) -> (r: Option<(String, String)>)
    ensures
        pair_view(r) == regex_named_pair(pattern@, haystack@, first@, second@),
        r matches Some((a, b)) ==> is_substring(a@, haystack@) && is_substring(b@, haystack@),
        pattern@ == "containers/(?<id>[^/]+)/(?<resource>.+)"@ && first@ == "id"@ && second@ == "resource"@
            ==> pair_view(r) == container_route_of(haystack@),
{
    let re = regex::Regex::new(pattern).ok()?;
    let caps = re.captures(haystack)?;
    let a = caps.name(first)?.as_str().to_string();
    let b = caps.name(second)?.as_str().to_string();
    Some((a, b))
}

/// Turns the id and resource captured from a container route into a route match.
pub fn get_match_from_captures(caps: Option<(String, String)>) -> (m: Option<GetMatch>)
    ensures
        get_match_view(m) == pair_view(caps),
{
    match caps {
        Some((id, resource)) => Some(GetMatch { id, resource }),
        None => None,
    }
}

/// Recognises a container route `containers/<id>/<resource>` in a request path.
pub fn match_container_get(haystack: &str) -> (m: Option<GetMatch>)
    ensures
        get_match_view(m) == container_route_of(haystack@),
        get_match_view(m) == regex_named_pair(container_route_pattern(), haystack@, "id"@, "resource"@),
{
    let caps = regex_capture_pair("containers/(?<id>[^/]+)/(?<resource>.+)", haystack, "id", "resource");
    get_match_from_captures(caps)
}

/// The path that inspects container `id` on the Docker API.
pub fn inspect_path(id: &str) -> (p: String)
    ensures
        p@ == "containers/"@ + id@ + "/json"@,
{
    let mut p = "containers/".to_owned();
    p.append(id);
    p.append("/json");
    p
}

/// A container passes the include filters: there are none, or one of its names
/// contains a name filter, or (label filters being set) its labels satisfy them.
pub open spec fn included_by(
    filter_names: Seq<Seq<char>>,
    filter_labels: Map<Seq<char>, Option<Seq<char>>>,
    names: Seq<Seq<char>>,
    labels: Map<Seq<char>, Seq<char>>,
) -> bool {
    ||| filter_names.len() == 0 && filter_labels.is_empty()
    ||| some_contains(names, filter_names)
    ||| !filter_labels.is_empty() && labels_match(labels, filter_labels)
}

/// A container hits an exclusion filter: one of its names contains an excluded
/// name, or (exclusion labels being set) its labels satisfy them.
pub open spec fn excluded_by(
    exclude_names: Seq<Seq<char>>,
    exclude_labels: Map<Seq<char>, Option<Seq<char>>>,
    names: Seq<Seq<char>>,
    labels: Map<Seq<char>, Seq<char>>,
) -> bool {
    ||| some_contains(names, exclude_names)
    ||| !exclude_labels.is_empty() && labels_match(labels, exclude_labels)
}

/// A container with these names and labels is exposed under `config`.
pub open spec fn exposed(
    config: AppConfig,
    names: Seq<Seq<char>>,
    labels: Map<Seq<char>, Seq<char>>,
) -> bool {
    &&& included_by(config.container_names.deep_view(), config.container_labels@, names, labels)
    &&& !excluded_by(config.exclude_names.deep_view(), config.exclude_labels@, names, labels)
}

/// The names of a container list entry (none when absent).
pub open spec fn summary_names(c: ContainerSummary) -> Seq<Seq<char>> {
    match c.names {
        Some(n) => n.deep_view(),
        None => Seq::empty(),
    }
}

/// The labels of a container list entry (none when absent).
pub open spec fn summary_labels(c: ContainerSummary) -> Map<Seq<char>, Seq<char>> {
    match c.labels {
        Some(l) => l@,
        None => Map::empty(),
    }
}

/// Whether a container passes the include filters.
pub fn match_labels_or_names(
    filter_names: &ContainerNames,
    filter_labels: &ContainerLabels,
    names: &Vec<String>,
    labels: &Labels,
) -> (r: bool)
    ensures
        r == included_by(filter_names.deep_view(), filter_labels@, names.deep_view(), labels@),
{
    if filter_names.len() == 0 && filter_labels.is_empty() {
        return true;
    }
    if filter_names.len() != 0 {
        if strings_in_strings(names, filter_names) {
            return true;
        }
    } else {
        assert(!some_contains(names.deep_view(), filter_names.deep_view()));
    }
    if !filter_labels.is_empty() {
        if label_match(labels, filter_labels) {
            return true;
        }
    }
    false
}

/// Whether a container matches any exclusion filter.
pub fn matches_exclude(
    exclude_names: &ContainerNames,
    exclude_labels: &ContainerLabels,
    names: &Vec<String>,
    labels: &Labels,
) -> (r: bool)
    ensures
        r == excluded_by(exclude_names.deep_view(), exclude_labels@, names.deep_view(), labels@),
{
    if exclude_names.len() == 0 && exclude_labels.is_empty() {
        assert(!some_contains(names.deep_view(), exclude_names.deep_view()));
        return false;
    }
    if exclude_names.len() != 0 {
        if strings_in_strings(names, exclude_names) {
            return true;
        }
    } else {
        assert(!some_contains(names.deep_view(), exclude_names.deep_view()));
    }
    if !exclude_labels.is_empty() {
        if label_match(labels, exclude_labels) {
            return true;
        }
    }
    false
}

/// Whether a container list entry is exposed: it passes the include filters
/// (or none are set) and hits no exclusion filter.
pub fn container_summary_match(container: &ContainerSummary, config: &AppConfig) -> (r: bool)
    ensures
        r == exposed(*config, summary_names(*container), summary_labels(*container)),
{
    let no_names: Vec<String> = Vec::new();
    let no_labels: Labels = Labels::new();
    let names = match &container.names {
        Some(n) => n,
        None => &no_names,
    };
    let labels = match &container.labels {
        Some(l) => l,
        None => &no_labels,
    };
    assert(names.deep_view() =~= summary_names(*container));
    let included = match_labels_or_names(&config.container_names, &config.container_labels, names, labels);
    if !included {
        return false;
    }
    let excluded = matches_exclude(&config.exclude_names, &config.exclude_labels, names, labels);
    !excluded
}

/// Whether a single container, known by its name and labels, is exposed.
pub fn container_info_match(config: &AppConfig, name: &str, labels: &Labels) -> (r: bool)
    ensures
        r == exposed(*config, seq![name@], labels@),
{
    let names: Vec<String> = vec![name.to_owned()];
    assert(names.deep_view() =~= seq![name@]);
    let included = match_labels_or_names(&config.container_names, &config.container_labels, &names, labels);
    if !included {
        return false;
    }
    let excluded = matches_exclude(&config.exclude_names, &config.exclude_labels, &names, labels);
    !excluded
}

/// Some name of `names` contains some string of `filters`.
proof fn lemma_names_contain(names: Seq<Seq<char>>, filters: Vec<String>)
    ensures
        some_contains(names, filters.deep_view()) == exists|i: int, j: int|
            0 <= i < names.len() && 0 <= j < filters@.len() && #[trigger] is_substring(filters@[j]@, names[i]),
{
    assert(filters.deep_view().len() == filters@.len());
    assert forall|j: int| 0 <= j < filters@.len() implies #[trigger] filters.deep_view()[j] == filters@[j]@ by {}
    if some_contains(names, filters.deep_view()) {
        let (i, j) = choose|i: int, j: int|
            0 <= i < names.len() && 0 <= j < filters.deep_view().len() && #[trigger] is_substring(
                filters.deep_view()[j],
                names[i],
            );
        assert(is_substring(filters@[j]@, names[i]));
    }
    if exists|i: int, j: int|
        0 <= i < names.len() && 0 <= j < filters@.len() && #[trigger] is_substring(filters@[j]@, names[i]) {
        let (i, j) = choose|i: int, j: int|
            0 <= i < names.len() && 0 <= j < filters@.len() && #[trigger] is_substring(filters@[j]@, names[i]);
        assert(is_substring(filters.deep_view()[j], names[i]));
    }
}

/// A container is exposed exactly when it passes the include filters (there are
/// none, or one of its names contains a name filter, or label filters are set and
/// its labels satisfy them) and does not hit an exclude filter (one of its names
/// contains an excluded name, or exclude labels are set and its labels satisfy
/// them). Name and label filters are alternatives: either kind admits.
pub proof fn lemma_exposed_meaning(config: AppConfig, names: Seq<Seq<char>>, labels: Map<Seq<char>, Seq<char>>)
    ensures
        exposed(config, names, labels) <==> ({
            &&& {
                ||| config.container_names@.len() == 0 && config.container_labels@.dom().is_empty()
                ||| exists|i: int, j: int|
                    0 <= i < names.len() && 0 <= j < config.container_names@.len() && #[trigger] is_substring(
                        config.container_names@[j]@,
                        names[i],
                    )
                ||| !config.container_labels@.dom().is_empty() && labels_match(labels, config.container_labels@)
            }
            &&& !{
                ||| exists|i: int, j: int|
                    0 <= i < names.len() && 0 <= j < config.exclude_names@.len() && #[trigger] is_substring(
                        config.exclude_names@[j]@,
                        names[i],
                    )
                ||| !config.exclude_labels@.dom().is_empty() && labels_match(labels, config.exclude_labels@)
            }
        }),
{
    lemma_names_contain(names, config.container_names);
    lemma_names_contain(names, config.exclude_names);
    assert(config.container_labels@.is_empty() == config.container_labels@.dom().is_empty());
    assert(config.exclude_labels@.is_empty() == config.exclude_labels@.dom().is_empty());
    assert(config.container_names.deep_view().len() == config.container_names@.len());
}

/// The exclusion check is the inclusion check applied to the exclusion lists,
/// except that empty exclusion lists exclude nothing.
pub proof fn lemma_exclusion_mirrors_inclusion(
    names_filter: Seq<Seq<char>>,
    labels_filter: Map<Seq<char>, Option<Seq<char>>>,
    names: Seq<Seq<char>>,
    labels: Map<Seq<char>, Seq<char>>,
)
    ensures
        excluded_by(names_filter, labels_filter, names, labels) == (!(names_filter.len() == 0
            && labels_filter.is_empty()) && included_by(names_filter, labels_filter, names, labels)),
{
}

/// Without include or exclude filters every container is exposed.
pub proof fn lemma_no_filters_expose_all(config: AppConfig, names: Seq<Seq<char>>, labels: Map<Seq<char>, Seq<char>>)
    requires
        config.container_names@.len() == 0,
        config.container_labels@.is_empty(),
        config.exclude_names@.len() == 0,
        config.exclude_labels@.is_empty(),
    ensures
        exposed(config, names, labels),
{
}

/// A container that matches an exclusion filter is never exposed, whatever the
/// include filters say.
pub proof fn lemma_exclusion_wins(config: AppConfig, names: Seq<Seq<char>>, labels: Map<Seq<char>, Seq<char>>)
    requires
        excluded_by(config.exclude_names.deep_view(), config.exclude_labels@, names, labels),
    ensures
        !exposed(config, names, labels),
{
}

/// With only name filters set, a container is exposed exactly when one of its
/// names contains one of the filter values.
pub proof fn lemma_name_filters_select_by_substring(
    config: AppConfig,
    names: Seq<Seq<char>>,
    labels: Map<Seq<char>, Seq<char>>,
)
    requires
        config.container_names@.len() > 0,
        config.container_labels@.is_empty(),
        config.exclude_names@.len() == 0,
        config.exclude_labels@.is_empty(),
    ensures
        exposed(config, names, labels) == exists|i: int, j: int|
            0 <= i < names.len() && 0 <= j < config.container_names@.len() && #[trigger] is_substring(
                config.container_names@[j]@,
                names[i],
            ),
{
    assert(config.container_names.deep_view().len() == config.container_names@.len());
    assert forall|j: int| 0 <= j < config.container_names@.len() implies #[trigger] config.container_names.deep_view()[j]
        == config.container_names@[j]@ by {}
    if exposed(config, names, labels) {
        let (i, j) = choose|i: int, j: int|
            0 <= i < names.len() && 0 <= j < config.container_names.deep_view().len() && #[trigger] is_substring(
                config.container_names.deep_view()[j],
                names[i],
            );
        assert(is_substring(config.container_names@[j]@, names[i]));
    }
    if exists|i: int, j: int|
        0 <= i < names.len() && 0 <= j < config.container_names@.len() && #[trigger] is_substring(
            config.container_names@[j]@,
            names[i],
        ) {
        let (i, j) = choose|i: int, j: int|
            0 <= i < names.len() && 0 <= j < config.container_names@.len() && #[trigger] is_substring(
                config.container_names@[j]@,
                names[i],
            );
        assert(is_substring(config.container_names.deep_view()[j], names[i]));
    }
}

} // verus!
