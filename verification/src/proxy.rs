//! Decisions of the forwarding proxy: which requests stream, how a buffered
//! response is treated, and what a container route is answered.

use vstd::prelude::*;

use crate::config::AppConfig;
use crate::docker::types::{ContainerInspect, ContainerSummary, DockerErrorMessage};
use crate::docker::{
    container_info_match, container_route_of, container_summary_match, exposed, match_container_get,
    summary_labels, summary_names, GetMatch,
};
use crate::strmap::StrMap;
use crate::text::{is_substring, lemma_substring_iff_split, str_contains, str_eq};
use crate::utils::Labels;

verus! {

/// Paths of Docker endpoints whose responses are long-lived or large:
/// image pull, push and build, and container logs, attach and exec.
pub open spec fn streaming_path(path: Seq<char>) -> bool {
    ||| is_substring("/images/create"@, path)
    ||| is_substring("/push"@, path)
    ||| is_substring("/build"@, path)
    ||| is_substring("/logs"@, path)
    ||| is_substring("/attach"@, path)
    ||| is_substring("/exec/"@, path)
}

/// A response is streamed exactly when the path holds one of the streaming
/// endpoint markers anywhere: `/images/create`, `/push`, `/build`, `/logs`,
/// `/attach` or `/exec/`, whatever precedes or follows it (such as an API
/// version prefix).
pub proof fn lemma_streaming_meaning(path: Seq<char>)
    ensures
        streaming_path(path) <==> {
            ||| exists|a: Seq<char>, b: Seq<char>| path == a + "/images/create"@ + b
            ||| exists|a: Seq<char>, b: Seq<char>| path == a + "/push"@ + b
            ||| exists|a: Seq<char>, b: Seq<char>| path == a + "/build"@ + b
            ||| exists|a: Seq<char>, b: Seq<char>| path == a + "/logs"@ + b
            ||| exists|a: Seq<char>, b: Seq<char>| path == a + "/attach"@ + b
            ||| exists|a: Seq<char>, b: Seq<char>| path == a + "/exec/"@ + b
        },
{
    lemma_substring_iff_split("/images/create"@, path);
    lemma_substring_iff_split("/push"@, path);
    lemma_substring_iff_split("/build"@, path);
    lemma_substring_iff_split("/logs"@, path);
    lemma_substring_iff_split("/attach"@, path);
    lemma_substring_iff_split("/exec/"@, path);
}

/// Whether responses from `path` must be streamed through without buffering.
pub fn is_streaming_endpoint(path: &str) -> (r: bool)
    ensures
        r == streaming_path(path@),
{
    if str_contains(path, "/images/create") || str_contains(path, "/push") || str_contains(path, "/build") {
        return true;
    }
    if str_contains(path, "/logs") || str_contains(path, "/attach") || str_contains(path, "/exec/") {
        return true;
    }
    false
}

/// How a buffered upstream response is to be treated.
pub enum ResponsePlan {
    /// Hand the upstream response on unchanged.
    PassThrough,
    /// Keep only the exposed containers of a container list.
    FilterContainerList,
    /// Answer a request that addresses a single container.
    ContainerRoute(GetMatch),
}

/// Decides how to treat the upstream response to a request for `path`: only
/// successful responses are filtered; container lists are filtered entry by
/// entry; requests for a single container are checked against the filters;
/// everything else passes through.
pub fn plan_response(status: u16, path: &str) -> (p: ResponsePlan)
    ensures
        status != 200 ==> p is PassThrough,
        status == 200 && is_substring("containers/json"@, path@) ==> p is FilterContainerList,
        status == 200 && !is_substring("containers/json"@, path@) ==> match container_route_of(path@) {
            Some((id, resource)) => p matches ResponsePlan::ContainerRoute(g) && g.id@ == id
                && g.resource@ == resource,
            None => p is PassThrough,
        },
{
    if status != 200 {
        return ResponsePlan::PassThrough;
    }
    if str_contains(path, "containers/json") {
        return ResponsePlan::FilterContainerList;
    }
    match match_container_get(path) {
        Some(m) => ResponsePlan::ContainerRoute(m),
        None => ResponsePlan::PassThrough,
    }
}

/// Positions, in order, of the exposed entries among the first `n` of `containers`.
pub open spec fn exposed_positions(containers: Seq<ContainerSummary>, config: AppConfig, n: int) -> Seq<usize>
    decreases n,
{
    if n <= 0 {
        Seq::empty()
    } else {
        let c = containers[n - 1];
        let rest = exposed_positions(containers, config, n - 1);
        if exposed(config, summary_names(c), summary_labels(c)) {
            rest.push((n - 1) as usize)
        } else {
            rest
        }
    }
}

/// The positions of the container list entries that stay in the filtered list.
pub fn filter_container_list(containers: &Vec<ContainerSummary>, config: &AppConfig) -> (kept: Vec<usize>)
    ensures
        kept@ == exposed_positions(containers@, *config, containers@.len() as int),
{
    let mut kept: Vec<usize> = Vec::new();
    let mut i: usize = 0;
    while i < containers.len()
        invariant
            i <= containers@.len(),
            kept@ == exposed_positions(containers@, *config, i as int),
        decreases containers@.len() - i,
    {
        if container_summary_match(&containers[i], config) {
            kept.push(i);
        }
        i += 1;
    }
    kept
}

/// The entries of the filtered list are exactly the exposed containers, in their
/// original order.
pub proof fn lemma_filtered_list_is_exposed(containers: Seq<ContainerSummary>, config: AppConfig, n: int)
    requires
        0 <= n <= containers.len(),
        n <= usize::MAX + 1,
    ensures
        forall|j: int|
            0 <= j < exposed_positions(containers, config, n).len() ==> #[trigger] exposed_positions(
                containers,
                config,
                n,
            )[j] < n,
        forall|a: int, b: int|
            0 <= a < b < exposed_positions(containers, config, n).len() ==> exposed_positions(
                containers,
                config,
                n,
            )[a] < exposed_positions(containers, config, n)[b],
        forall|p: int|
            0 <= p < n ==> (exposed_positions(containers, config, n).contains(p as usize) <==> exposed(
                config,
                summary_names(#[trigger] containers[p]),
                summary_labels(containers[p]),
            )),
    decreases n,
{
    if n > 0 {
        lemma_filtered_list_is_exposed(containers, config, n - 1);
        let rest = exposed_positions(containers, config, n - 1);
        let all = exposed_positions(containers, config, n);
        assert forall|p: int| 0 <= p < n implies (all.contains(p as usize) <==> exposed(
            config,
            summary_names(#[trigger] containers[p]),
            summary_labels(containers[p]),
        )) by {
            if p < n - 1 {
                if all.contains(p as usize) {
                    let j = choose|j: int| 0 <= j < all.len() && all[j] == p as usize;
                    if j < rest.len() {
                        assert(rest[j] == p as usize);
                    }
                }
                if rest.contains(p as usize) {
                    let j = choose|j: int| 0 <= j < rest.len() && rest[j] == p as usize;
                    assert(all[j] == p as usize);
                }
            } else {
                if exposed(config, summary_names(containers[p]), summary_labels(containers[p])) {
                    assert(all[all.len() - 1] == p as usize);
                } else if all.contains(p as usize) {
                    let j = choose|j: int| 0 <= j < all.len() && all[j] == p as usize;
                    assert(rest[j] < n - 1);
                }
            }
        }
    }
}

/// The verdicts recorded so far per container id: `Some(true)` exposed,
/// `Some(false)` hidden, `None` unknown because the inspection failed.
pub struct AppStateWithContainerMap {
    pub container_map: StrMap<Option<bool>>,
}

/// A container still has to be inspected unless a verdict is recorded for it.
pub open spec fn must_inspect(verdicts: Map<Seq<char>, Option<bool>>, id: Seq<char>) -> bool {
    !(verdicts.contains_key(id) && verdicts[id] is Some)
}

/// What inspecting a container yielded.
pub enum InspectOutcome {
    /// The container's name and labels.
    Found { name: String, labels: Labels },
    /// The error the inspection ended with.
    Failed { error: String },
}

/// The verdict recorded for an inspection: found containers are judged by the
/// filters; a container Docker does not know is hidden; any other failure
/// leaves the verdict unknown.
pub open spec fn verdict_of(config: AppConfig, outcome: InspectOutcome) -> Option<bool> {
    match outcome {
        InspectOutcome::Found { name, labels } => Some(exposed(config, seq![name@], labels@)),
        InspectOutcome::Failed { error } => if is_substring("No such container"@, error@) {
            Some(false)
        } else {
            None
        },
    }
}

/// Reads an inspection document: Docker's error message if it carries one,
/// otherwise the container's name and labels.
pub fn inspect_outcome(inspect: ContainerInspect) -> (o: InspectOutcome)
    requires
        inspect.message is Some || (inspect.name is Some && inspect.config is Some
            && inspect.config->0.labels is Some),
    ensures
        match inspect.message {
            Some(msg) => o matches InspectOutcome::Failed { error } && error@ == msg@,
            None => o matches InspectOutcome::Found { name, labels } && name@ == inspect.name->0@
                && labels@ == inspect.config->0.labels->0@,
        },
{
    match inspect.message {
        Some(msg) => InspectOutcome::Failed { error: msg },
        None => {
            let name = inspect.name.unwrap();
            let config = inspect.config.unwrap();
            let labels = config.labels.unwrap();
            InspectOutcome::Found { name, labels }
        },
    }
}

/// The verdict to record for an inspection outcome.
pub fn verdict_for_inspect(config: &AppConfig, outcome: &InspectOutcome) -> (v: Option<bool>)
    ensures
        v == verdict_of(*config, *outcome),
{
    match outcome {
        InspectOutcome::Found { name, labels } => Some(container_info_match(config, name.as_str(), labels)),
        InspectOutcome::Failed { error } => {
            if str_contains(error.as_str(), "No such container") {
                Some(false)
            } else {
                None
            }
        },
    }
}

/// How a request for a single container is answered.
pub enum ContainerResponse {
    /// Send the container's JSON document, with its environment emptied when `scrub_env`.
    Json { scrub_env: bool },
    /// Send the upstream body unchanged.
    Body,
    /// Answer 404 with this error document.
    NotFound(DockerErrorMessage),
}

/// A recorded verdict lets the container be shown only when it is `Some(true)`.
pub open spec fn verdict_allows(verdict: Option<bool>) -> bool {
    verdict == Some(true)
}

/// What happens to a request for a single container while it is admitted.
pub enum AdmissionEvent {
    /// The request has just arrived.
    Arrived,
    /// The container has been inspected, with this outcome.
    Inspected(InspectOutcome),
}

/// What to do next with a request for a single container.
pub enum AdmissionAction {
    /// Inspect the container, then report the outcome.
    Inspect,
    /// Forward the request.
    Admit,
    /// Answer 404 with this error document, without forwarding.
    Refuse(DockerErrorMessage),
}

/// The verdicts after an admission step for container `id`: an inspection outcome
/// is recorded only while the verdict is unknown, and an arrival records nothing.
pub open spec fn admitted_verdicts(
    verdicts: Map<Seq<char>, Option<bool>>,
    config: AppConfig,
    id: Seq<char>,
    event: AdmissionEvent,
) -> Map<Seq<char>, Option<bool>> {
    match event {
        AdmissionEvent::Arrived => verdicts,
        AdmissionEvent::Inspected(outcome) => if must_inspect(verdicts, id) {
            verdicts.insert(id, verdict_of(config, outcome))
        } else {
            verdicts
        },
    }
}

/// How a request is to be forwarded.
pub enum RequestPlan {
    /// Not a request for a single container: forward it, streaming the response when `stream`.
    Forward { stream: bool },
    /// A request for a single container: admit it first, then forward it, streaming when `stream`.
    Container { route: GetMatch, stream: bool },
}

/// Decides, before anything is sent upstream, how to forward a request for `path`:
/// a request that addresses a single container (other than the container list)
/// must be admitted first, whether its response is streamed or buffered.
pub fn plan_request(path: &str) -> (p: RequestPlan)
    ensures
        is_substring("containers/json"@, path@) ==> (p matches RequestPlan::Forward { stream } && stream
            == streaming_path(path@)),
        !is_substring("containers/json"@, path@) ==> match container_route_of(path@) {
            Some((id, resource)) => p matches RequestPlan::Container { route, stream } && route.id@ == id
                && route.resource@ == resource && stream == streaming_path(path@),
            None => p matches RequestPlan::Forward { stream } && stream == streaming_path(path@),
        },
{
    let stream = is_streaming_endpoint(path);
    if str_contains(path, "containers/json") {
        return RequestPlan::Forward { stream };
    }
    match match_container_get(path) {
        Some(route) => RequestPlan::Container { route, stream },
        None => RequestPlan::Forward { stream },
    }
}

impl AppStateWithContainerMap {
    /// No verdicts yet.
    pub fn new() -> (s: Self)
        ensures
            s.container_map@ == Map::<Seq<char>, Option<bool>>::empty(),
    {
        AppStateWithContainerMap { container_map: StrMap::new() }
    }

    /// One step of admitting a request for the container route `m`. On arrival the
    /// container is to be inspected exactly when no verdict is known for it;
    /// otherwise (and after an inspection) the request is admitted exactly when
    /// the recorded verdict allows the container, and refused with Docker's
    /// "No such container" otherwise.
    pub fn admission_step(&mut self, config: &AppConfig, m: &GetMatch, event: AdmissionEvent) -> (a: AdmissionAction)
        ensures
            final(self).container_map@ == admitted_verdicts(old(self).container_map@, *config, m.id@, event),
            (a is Inspect) == (event is Arrived && must_inspect(old(self).container_map@, m.id@)),
            !(a is Inspect) ==> final(self).container_map@.contains_key(m.id@) && ((a is Admit) == verdict_allows(
                final(self).container_map@[m.id@],
            )),
            a matches AdmissionAction::Refuse(e) ==> e.message@ == "No such container: "@ + m.id@,
    {
        let unknown = match self.container_map.get(m.id.as_str()) {
            Some(v) => v.is_none(),
            None => true,
        };
        match event {
            AdmissionEvent::Arrived => {
                if unknown {
                    return AdmissionAction::Inspect;
                }
            },
            AdmissionEvent::Inspected(outcome) => {
                if unknown {
                    let verdict = verdict_for_inspect(config, &outcome);
                    self.container_map.insert(m.id.clone(), verdict);
                }
            },
        }
        match self.container_map.get(m.id.as_str()) {
            Some(Some(true)) => AdmissionAction::Admit,
            _ => AdmissionAction::Refuse(DockerErrorMessage::no_such_container(m.id.as_str())),
        }
    }

    /// The answer to a request for the container route `m`, by the verdict recorded
    /// for its id: an exposed container gets its document (scrubbed when configured)
    /// or its other resource; any other container gets Docker's "No such container".
    pub fn container_response(&self, config: &AppConfig, m: &GetMatch) -> (r: ContainerResponse)
        requires
            self.container_map@.contains_key(m.id@),
        ensures
            (r is NotFound) == !verdict_allows(self.container_map@[m.id@]),
            verdict_allows(self.container_map@[m.id@]) ==> if m.resource@ == "json"@ {
                r matches ContainerResponse::Json { scrub_env } && scrub_env == config.scrub_envs
            } else {
                r is Body
            },
            r matches ContainerResponse::NotFound(e) ==> e.message@ == "No such container: "@ + m.id@,
    {
        let allowed = self.container_map.get(m.id.as_str());
        match allowed {
            Some(Some(true)) => {
                if str_eq(m.resource.as_str(), "json") {
                    ContainerResponse::Json { scrub_env: config.scrub_envs }
                } else {
                    ContainerResponse::Body
                }
            },
            _ => ContainerResponse::NotFound(DockerErrorMessage::no_such_container(m.id.as_str())),
        }
    }
}

/// Every endpoint that is tunnelled as a raw stream is also one whose HTTP
/// responses are streamed rather than buffered.
pub proof fn lemma_upgrade_paths_stream(path: Seq<char>)
    requires
        crate::tunnel::upgrade_path(path),
    ensures
        streaming_path(path),
{
}

/// A known verdict is never replaced: admitting a request keeps every key and every
/// known verdict, and can only set the verdict of the requested container.
pub proof fn lemma_admission_keeps_known_verdicts(
    verdicts: Map<Seq<char>, Option<bool>>,
    config: AppConfig,
    id: Seq<char>,
    event: AdmissionEvent,
)
    ensures
        forall|k: Seq<char>| verdicts.contains_key(k) ==> #[trigger] admitted_verdicts(verdicts, config, id, event).contains_key(k),
        forall|k: Seq<char>| verdicts.contains_key(k) && verdicts[k] is Some ==> #[trigger] admitted_verdicts(verdicts, config, id, event)[k] == verdicts[k],
        forall|k: Seq<char>| k != id ==> (#[trigger] admitted_verdicts(verdicts, config, id, event).contains_key(k) == verdicts.contains_key(k)
            && (verdicts.contains_key(k) ==> admitted_verdicts(verdicts, config, id, event)[k] == verdicts[k])),
        admitted_verdicts(verdicts, config, id, AdmissionEvent::Arrived) == verdicts,
{
}

/// The verdict recorded for an inspection: a found container is exposed or hidden
/// by the filters on its name and labels; a failure whose message holds "No such
/// container" hides it; any other failure leaves it unknown.
pub proof fn lemma_verdict_meaning(config: AppConfig, outcome: InspectOutcome)
    ensures
        verdict_of(config, outcome) == match outcome {
            InspectOutcome::Found { name, labels } => Some(exposed(config, seq![name@], labels@)),
            InspectOutcome::Failed { error } => if exists|a: Seq<char>, b: Seq<char>|
                error@ == a + "No such container"@ + b {
                Some(false)
            } else {
                None
            },
        },
{
    if let InspectOutcome::Failed { error } = outcome {
        lemma_substring_iff_split("No such container"@, error@);
    }
}

/// A container is inspected exactly when no verdict, or only an unknown one, is
/// recorded for it, and a request is admitted exactly when the recorded verdict
/// is "exposed".
pub proof fn lemma_admission_decision(verdicts: Map<Seq<char>, Option<bool>>, id: Seq<char>, verdict: Option<bool>)
    ensures
        must_inspect(verdicts, id) <==> (!verdicts.contains_key(id) || verdicts[id] == None::<bool>),
        verdict_allows(verdict) <==> verdict == Some(true),
{
}

/// After a container is inspected, a request for it is admitted exactly when the
/// container passes the filters; a container Docker does not know, or whose
/// inspection failed, is refused with "No such container".
pub proof fn lemma_inspected_container_answer(
    config: AppConfig,
    verdicts: Map<Seq<char>, Option<bool>>,
    id: Seq<char>,
    outcome: InspectOutcome,
)
    requires
        must_inspect(verdicts, id),
    ensures
        verdict_allows(admitted_verdicts(verdicts, config, id, AdmissionEvent::Inspected(outcome))[id]) == match outcome {
            InspectOutcome::Found { name, labels } => exposed(config, seq![name@], labels@),
            InspectOutcome::Failed { .. } => false,
        },
{
}

} // verus!
