//! The services, the progress that saving reports, and the decisions taken
//! around one run of a service.
use vstd::prelude::*;

use crate::errors::Error;
use crate::text::{owned, push_all, same_text};

verus! {

/// One of the message apps.
#[derive(Clone, Copy, Debug, PartialEq, Eq, Structural, PartialOrd, Ord, Hash)]
pub enum Service {
    Sakurazaka,
    Hinatazaka,
    Nogizaka,
    Asukasaito,
    Maishiraishi,
    Yodel,
}

/// Every service, in the order in which they are listed and shown.
pub open spec fn all_services() -> Seq<Service> {
    seq![
        Service::Sakurazaka,
        Service::Hinatazaka,
        Service::Nogizaka,
        Service::Asukasaito,
        Service::Maishiraishi,
        Service::Yodel,
    ]
}

impl Service {
    /// Every service, in the order in which they are listed and shown.
    pub fn all() -> (r: Vec<Service>)
        ensures
            r@ == all_services(),
    {
        let mut r: Vec<Service> = Vec::new();
        r.push(Service::Sakurazaka);
        r.push(Service::Hinatazaka);
        r.push(Service::Nogizaka);
        r.push(Service::Asukasaito);
        r.push(Service::Maishiraishi);
        r.push(Service::Yodel);
        assert(r@ =~= all_services());
        r
    }

    pub open spec fn spec_name(self) -> Seq<char> {
        match self {
            Service::Sakurazaka => "Sakurazaka"@,
            Service::Hinatazaka => "Hinatazaka"@,
            Service::Nogizaka => "Nogizaka"@,
            Service::Asukasaito => "Asukasaito"@,
            Service::Maishiraishi => "Maishiraishi"@,
            Service::Yodel => "Yodel"@,
        }
    }

    /// The name shown in progress and error lines.
    pub fn name(self) -> (r: &'static str)
        ensures
            r@ == self.spec_name(),
    {
        match self {
            Service::Sakurazaka => "Sakurazaka",
            Service::Hinatazaka => "Hinatazaka",
            Service::Nogizaka => "Nogizaka",
            Service::Asukasaito => "Asukasaito",
            Service::Maishiraishi => "Maishiraishi",
            Service::Yodel => "Yodel",
        }
    }

    pub open spec fn spec_slug(self) -> Seq<char> {
        match self {
            Service::Sakurazaka => "sakurazaka"@,
            Service::Hinatazaka => "hinatazaka"@,
            Service::Nogizaka => "nogizaka"@,
            Service::Asukasaito => "asukasaito"@,
            Service::Maishiraishi => "maishiraishi"@,
            Service::Yodel => "yodel"@,
        }
    }

    /// The value of `--group` that selects the service.
    pub fn slug(self) -> (r: &'static str)
        ensures
            r@ == self.spec_slug(),
    {
        match self {
            Service::Sakurazaka => "sakurazaka",
            Service::Hinatazaka => "hinatazaka",
            Service::Nogizaka => "nogizaka",
            Service::Asukasaito => "asukasaito",
            Service::Maishiraishi => "maishiraishi",
            Service::Yodel => "yodel",
        }
    }

    pub open spec fn spec_token_argument(self) -> Seq<char> {
        match self {
            Service::Sakurazaka => "s_refresh_token"@,
            Service::Hinatazaka => "h_refresh_token"@,
            Service::Nogizaka => "n_refresh_token"@,
            Service::Asukasaito => "a_refresh_token"@,
            Service::Maishiraishi => "m_refresh_token"@,
            Service::Yodel => "y_refresh_token"@,
        }
    }

    /// The option that gives the service's refresh token.
    pub fn token_argument(self) -> (r: &'static str)
        ensures
            r@ == self.spec_token_argument(),
    {
        match self {
            Service::Sakurazaka => "s_refresh_token",
            Service::Hinatazaka => "h_refresh_token",
            Service::Nogizaka => "n_refresh_token",
            Service::Asukasaito => "a_refresh_token",
            Service::Maishiraishi => "m_refresh_token",
            Service::Yodel => "y_refresh_token",
        }
    }

    pub open spec fn spec_app_id(self) -> Seq<char> {
        match self {
            Service::Sakurazaka => "jp.co.sonymusic.communication.sakurazaka 2.4"@,
            Service::Hinatazaka => "jp.co.sonymusic.communication.keyakizaka 2.4"@,
            Service::Nogizaka => "jp.co.sonymusic.communication.nogizaka 2.4"@,
            Service::Asukasaito => "jp.co.sonymusic.communication.asukasaito 2.4"@,
            Service::Maishiraishi => "jp.co.sonymusicsolutions.maishiraishi 2.4"@,
            Service::Yodel => "jp.co.sonymusic.communication.yodel 2.4"@,
        }
    }

    /// The `X-Talk-App-ID` that the service's API expects.
    pub fn app_id(self) -> (r: &'static str)
        ensures
            r@ == self.spec_app_id(),
    {
        match self {
            Service::Sakurazaka => "jp.co.sonymusic.communication.sakurazaka 2.4",
            Service::Hinatazaka => "jp.co.sonymusic.communication.keyakizaka 2.4",
            Service::Nogizaka => "jp.co.sonymusic.communication.nogizaka 2.4",
            Service::Asukasaito => "jp.co.sonymusic.communication.asukasaito 2.4",
            Service::Maishiraishi => "jp.co.sonymusicsolutions.maishiraishi 2.4",
            Service::Yodel => "jp.co.sonymusic.communication.yodel 2.4",
        }
    }

    pub open spec fn spec_base_url_variable(self) -> Seq<char> {
        match self {
            Service::Sakurazaka => "S_BASE_URL"@,
            Service::Hinatazaka => "H_BASE_URL"@,
            Service::Nogizaka => "N_BASE_URL"@,
            Service::Asukasaito => "A_BASE_URL"@,
            Service::Maishiraishi => "M_BASE_URL"@,
            Service::Yodel => "Y_BASE_URL"@,
        }
    }

    /// The environment variable that overrides the service's API address.
    pub fn base_url_variable(self) -> (r: &'static str)
        ensures
            r@ == self.spec_base_url_variable(),
    {
        match self {
            Service::Sakurazaka => "S_BASE_URL",
            Service::Hinatazaka => "H_BASE_URL",
            Service::Nogizaka => "N_BASE_URL",
            Service::Asukasaito => "A_BASE_URL",
            Service::Maishiraishi => "M_BASE_URL",
            Service::Yodel => "Y_BASE_URL",
        }
    }

    pub open spec fn spec_default_base_url(self) -> Seq<char> {
        match self {
            Service::Sakurazaka => "https://api.s46.glastonr.net"@,
            Service::Hinatazaka => "https://api.kh.glastonr.net"@,
            Service::Nogizaka => "https://api.n46.glastonr.net"@,
            Service::Asukasaito => "https://api.asukasaito.glastonr.net"@,
            Service::Maishiraishi => "https://api.maishiraishi.glastonr.net"@,
            Service::Yodel => "https://api.yodel.glastonr.net"@,
        }
    }

    /// The service's API address when no variable overrides it.
    pub fn default_base_url(self) -> (r: &'static str)
        ensures
            r@ == self.spec_default_base_url(),
    {
        match self {
            Service::Sakurazaka => "https://api.s46.glastonr.net",
            Service::Hinatazaka => "https://api.kh.glastonr.net",
            Service::Nogizaka => "https://api.n46.glastonr.net",
            Service::Asukasaito => "https://api.asukasaito.glastonr.net",
            Service::Maishiraishi => "https://api.maishiraishi.glastonr.net",
            Service::Yodel => "https://api.yodel.glastonr.net",
        }
    }

    /// The API address: the variable's value where it is set, else the default.
    pub fn base_url(self, variable: Option<String>) -> (r: String)
        ensures
            match variable {
                Some(v) => r@ == v@,
                None => r@ == self.spec_default_base_url(),
            },
    {
        match variable {
            Some(v) => v,
            None => owned(self.default_base_url()),
        }
    }
}

/// `s` with its ASCII capitals made small (`str::to_ascii_lowercase`).
pub open spec fn ascii_lowercase(s: Seq<char>) -> Seq<char> {
    s.map_values(|c: char| if 'A' <= c && c <= 'Z' { ((c as u32) + 32) as char } else { c })
}

/// A service's slug (the `--group` value) is its name in small letters, and
/// no two services share a slug.
pub proof fn lemma_slug_is_lowercase_name(a: Service, b: Service)
    ensures
        a.spec_slug() == ascii_lowercase(a.spec_name()),
        a != b ==> a.spec_slug() != b.spec_slug(),
{
    reveal_strlit("Sakurazaka");
    reveal_strlit("Hinatazaka");
    reveal_strlit("Nogizaka");
    reveal_strlit("Asukasaito");
    reveal_strlit("Maishiraishi");
    reveal_strlit("Yodel");
    reveal_strlit("sakurazaka");
    reveal_strlit("hinatazaka");
    reveal_strlit("nogizaka");
    reveal_strlit("asukasaito");
    reveal_strlit("maishiraishi");
    reveal_strlit("yodel");
    assert(a.spec_slug() =~= ascii_lowercase(a.spec_name()));
    if a != b {
        let (x, y) = (a.spec_slug(), b.spec_slug());
        if x.len() == y.len() {
            assert(x[0] != y[0] || x[1] != y[1] || x[2] != y[2]);
        }
    }
}

/// Where saving one member stands.
#[derive(Clone, Copy, Debug, PartialEq, Eq, Structural)]
pub enum MemberStatus {
    Saving,
    Done,
    Failed,
}

/// What saving reports while it runs.
pub enum ProgressEvent {
    ServiceStarted { service: Service },
    ServiceRetrying { service: Service },
    ServiceFinished { service: Service, success: bool },
    Member {
        service: Service,
        index: usize,
        total_members: usize,
        name: String,
        status: MemberStatus,
    },
}

impl Clone for ProgressEvent {
    fn clone(&self) -> (r: Self)
        ensures
            r == *self,
    {
        match self {
            ProgressEvent::ServiceStarted { service } => ProgressEvent::ServiceStarted {
                service: *service,
            },
            ProgressEvent::ServiceRetrying { service } => ProgressEvent::ServiceRetrying {
                service: *service,
            },
            ProgressEvent::ServiceFinished { service, success } => ProgressEvent::ServiceFinished {
                service: *service,
                success: *success,
            },
            ProgressEvent::Member { service, index, total_members, name, status } => {
                ProgressEvent::Member {
                    service: *service,
                    index: *index,
                    total_members: *total_members,
                    name: name.clone(),
                    status: *status,
                }
            },
        }
    }
}

/// A run with progress needs at least one worker.
pub fn check_jobs(jobs: usize) -> (r: core::result::Result<(), Error>)
    ensures
        jobs > 0 <==> r is Ok,
        r is Err ==> r->Err_0 is Msg && r->Err_0.text() == "jobs must be greater than zero"@,
{
    if jobs == 0 {
        Err(Error::msg("jobs must be greater than zero"))
    } else {
        Ok(())
    }
}

/// What a service run does after its first attempt.
#[derive(PartialEq, Eq, Structural, Debug)]
pub enum RetryDecision {
    /// The attempt's result stands.
    Finish,
    /// The cached access token was refused: drop it and run once more.
    RetryWithNewToken,
}

/// What a service run does after an attempt (`attempts` attempts made so
/// far, this one included): a refused authorization on the first attempt is
/// retried with a fresh token; any other result, and every result of a later
/// attempt, stands.
pub open spec fn retry_decision_spec(attempts: u32, result: core::result::Result<(), Error>) -> RetryDecision {
    if attempts == 1 && (result matches Err(e) && e.unauthorized()) {
        RetryDecision::RetryWithNewToken
    } else {
        RetryDecision::Finish
    }
}

pub fn retry_decision(attempts: u32, result: &core::result::Result<(), Error>) -> (r: RetryDecision)
    ensures
        r == retry_decision_spec(attempts, *result),
{
    if attempts != 1 {
        return RetryDecision::Finish;
    }
    match result {
        Err(e) => {
            if e.is_unauthorized() {
                RetryDecision::RetryWithNewToken
            } else {
                RetryDecision::Finish
            }
        },
        Ok(()) => RetryDecision::Finish,
    }
}

/// A service is attempted at most twice: whatever the results, a run that
/// follows `retry_decision` stops after its second attempt, and it only
/// retries a refused authorization.
pub proof fn lemma_retry_bounded(attempts: u32, result: core::result::Result<(), Error>)
    ensures
        attempts >= 2 ==> retry_decision_spec(attempts, result) == RetryDecision::Finish,
        retry_decision_spec(attempts, result) == RetryDecision::RetryWithNewToken ==> attempts == 1
            && result is Err && result->Err_0.unauthorized(),
{
}

/// Whether a service is run: its token was given, and no `--group` was given
/// or one of them names it.
pub open spec fn service_selected(
    service: Service,
    token_given: bool,
    groups: Option<Seq<Seq<char>>>,
) -> bool {
    token_given && match groups {
        None => true,
        Some(g) => g.contains(service.spec_slug()),
    }
}

pub open spec fn groups_view(groups: Option<Vec<String>>) -> Option<Seq<Seq<char>>> {
    match groups {
        Some(g) => Some(g@.map_values(|s: String| s@)),
        None => None,
    }
}

fn names_contain(names: &Vec<String>, wanted: &str) -> (r: bool)
    ensures
        r == names@.map_values(|s: String| s@).contains(wanted@),
{
    let n = names.len();
    for i in 0..n
        invariant
            n == names.len(),
            forall|j: int| 0 <= j < i ==> names@[j]@ != wanted@,
    {
        if same_text(names[i].as_str(), wanted) {
            assert(names@.map_values(|s: String| s@)[i as int] == wanted@);
            return true;
        }
    }
    proof {
        let v = names@.map_values(|s: String| s@);
        if v.contains(wanted@) {
            let k = choose|k: int| 0 <= k < v.len() && v[k] == wanted@;
            assert(names@[k]@ == wanted@);
        }
    }
    false
}

/// The services that run, in the order of `all_services`.
pub open spec fn selected_spec(token_given: Seq<bool>, groups: Option<Seq<Seq<char>>>) -> Seq<Service> {
    all_services().filter(|s: Service| service_selected(s, token_given[service_index(s)], groups))
}

/// The services to run, in the order of `all_services`: `token_given[i]`
/// says whether the i-th one's token was given; `groups` holds the values of
/// `--group`, if any.
pub fn selected_services(token_given: &Vec<bool>, groups: &Option<Vec<String>>) -> (r: Vec<Service>)
    requires
        token_given.len() == 6,
    ensures
        r@ == selected_spec(token_given@, groups_view(*groups)),
        forall|i: int|
            0 <= i < 6 ==> (r@.contains(#[trigger] all_services()[i]) <==> (token_given@[i] && (*groups is None
                || exists|j: int|
                0 <= j < groups->0@.len() && #[trigger] groups->0@[j]@ == all_services()[i].spec_slug()))),
{
    let all = Service::all();
    let mut r: Vec<Service> = Vec::new();
    let ghost pred = |s: Service| service_selected(s, token_given@[service_index(s)], groups_view(*groups));
    assert(selected_spec(token_given@, groups_view(*groups)) == all_services().filter(pred));
    for i in 0..6
        invariant
            all@ == all_services(),
            token_given.len() == 6,
            pred == (|s: Service| service_selected(s, token_given@[service_index(s)], groups_view(*groups))),
            r@ == all_services().take(i as int).filter(pred),
    {
        let s = all[i];
        assert(service_index(s) == i) by {
            lemma_service_index(i as int);
        }
        let selected = token_given[i] && match groups {
            None => true,
            Some(g) => names_contain(g, s.slug()),
        };
        assert(all_services().take(i + 1).drop_last() =~= all_services().take(i as int));
        reveal_with_fuel(Seq::<_>::filter, 1);
        if selected {
            r.push(s);
        }
    }
    assert(all_services().take(6) =~= all_services());
    proof {
        assert forall|i: int| 0 <= i < 6 implies (r@.contains(#[trigger] all_services()[i]) <==> (token_given@[i]
            && (*groups is None || exists|j: int|
            0 <= j < groups->0@.len() && #[trigger] groups->0@[j]@ == all_services()[i].spec_slug()))) by {
            lemma_selected_services(token_given@, groups_view(*groups), i);
            if let Some(g) = groups {
                let gv = g@.map_values(|x: String| x@);
                if exists|j: int| 0 <= j < gv.len() && #[trigger] gv[j] == all_services()[i].spec_slug() {
                    let j = choose|j: int| 0 <= j < gv.len() && #[trigger] gv[j] == all_services()[i].spec_slug();
                    assert(g@[j]@ == gv[j]);
                }
                if exists|j: int| 0 <= j < g@.len() && #[trigger] g@[j]@ == all_services()[i].spec_slug() {
                    let j = choose|j: int| 0 <= j < g@.len() && #[trigger] g@[j]@ == all_services()[i].spec_slug();
                    assert(gv[j] == g@[j]@);
                }
            }
        }
    }
    r
}

/// The i-th service runs exactly when its token was given and either no
/// `--group` was given or one of the `--group` values, at any place, is its
/// slug.
pub proof fn lemma_selected_services(token_given: Seq<bool>, groups: Option<Seq<Seq<char>>>, i: int)
    requires
        token_given.len() == 6,
        0 <= i < 6,
    ensures
        selected_spec(token_given, groups).contains(all_services()[i]) <==> (token_given[i] && (
        groups is None || exists|j: int|
            0 <= j < groups->0.len() && #[trigger] groups->0[j] == all_services()[i].spec_slug())),
{
    broadcast use vstd::seq_lib::group_filter_ensures;

    let pred = |s: Service| service_selected(s, token_given[service_index(s)], groups);
    let s = all_services()[i];
    lemma_service_index(i);
    assert(service_index(s) == i);
    let wanted = token_given[i] && (groups is None || exists|j: int|
        0 <= j < groups->0.len() && #[trigger] groups->0[j] == s.spec_slug());
    assert(pred(s) == wanted) by {
        if let Some(g) = groups {
            if g.contains(s.spec_slug()) {
                let j = choose|j: int| 0 <= j < g.len() && g[j] == s.spec_slug();
                assert(g[j] == s.spec_slug());
            }
            if exists|j: int| 0 <= j < g.len() && #[trigger] g[j] == s.spec_slug() {
                let j = choose|j: int| 0 <= j < g.len() && #[trigger] g[j] == s.spec_slug();
                assert(g.contains(s.spec_slug()));
            }
        }
    }
    if pred(s) {
        assert(all_services().filter(pred).contains(s));
    }
    if all_services().filter(pred).contains(s) {
        let k = choose|k: int| 0 <= k < all_services().filter(pred).len() && all_services().filter(pred)[k] == s;
        assert(pred(all_services().filter(pred)[k]));
    }
}

/// The place of a service in `all_services`.
pub open spec fn service_index(s: Service) -> int {
    match s {
        Service::Sakurazaka => 0,
        Service::Hinatazaka => 1,
        Service::Nogizaka => 2,
        Service::Asukasaito => 3,
        Service::Maishiraishi => 4,
        Service::Yodel => 5,
    }
}

proof fn lemma_service_index(i: int)
    requires
        0 <= i < 6,
    ensures
        service_index(all_services()[i]) == i,
{
}

/// The line that reports a service's error.
pub open spec fn service_error_line(service: Service, e: Error) -> Seq<char> {
    service.spec_name() + ": "@ + e.text()
}

/// The lines of the services that failed, in order.
pub open spec fn service_error_lines(results: Seq<(Service, core::result::Result<(), Error>)>) -> Seq<Seq<char>>
    decreases results.len(),
{
    if results.len() == 0 {
        Seq::empty()
    } else {
        let rest = service_error_lines(results.drop_last());
        match results.last().1 {
            Err(e) => rest.push(service_error_line(results.last().0, e)),
            Ok(_) => rest,
        }
    }
}

/// Lines joined by line breaks.
pub open spec fn joined(lines: Seq<Seq<char>>) -> Seq<char>
    decreases lines.len(),
{
    if lines.len() == 0 {
        Seq::empty()
    } else if lines.len() == 1 {
        lines[0]
    } else {
        joined(lines.drop_last()) + seq!['\n'] + lines.last()
    }
}

/// How a run of the selected services ends.
pub struct RunOutcome {
    /// How many services failed.
    pub failed_services: usize,
    /// The error to report, where some service failed.
    pub report: Option<Error>,
}

/// How a run ends, from each service's result: the number of services that
/// failed, and where there are any, one error that lists them, one line each.
/// The run fails exactly when some service failed.
pub fn run_outcome(results: &Vec<(Service, core::result::Result<(), Error>)>) -> (r: RunOutcome)
    ensures
        r.failed_services == service_error_lines(results@).len(),
        r.failed_services == 0 <==> r.report is None,
        r.report matches Some(e) ==> e is Msg && e.text() == "one or more services failed:\n"@
            + joined(service_error_lines(results@)),
{
    let mut lines: Vec<String> = Vec::new();
    let n = results.len();
    for i in 0..n
        invariant
            n == results.len(),
            lines@.map_values(|s: String| s@) == service_error_lines(results@.take(i as int)),
            lines.len() <= i,
    {
        assert(results@.take(i + 1).drop_last() =~= results@.take(i as int));
        assert(results@.take(i + 1).last() == results@[i as int]);
        match &results[i].1 {
            Err(e) => {
                let mut line = owned(results[i].0.name());
                push_all(&mut line, ": ");
                let t = e.message();
                push_all(&mut line, t.as_str());
                let ghost before = lines@;
                lines.push(line);
                assert(lines@.map_values(|s: String| s@) =~= before.map_values(|s: String| s@).push(
                    service_error_line(results@[i as int].0, results@[i as int].1->Err_0),
                ));
            },
            Ok(()) => {},
        }
    }
    assert(results@.take(n as int) =~= results@);
    let m = lines.len();
    if m == 0 {
        return RunOutcome { failed_services: 0, report: None };
    }
    let mut text = owned("one or more services failed:\n");
    let ghost start = text@;
    let ghost ls = lines@.map_values(|s: String| s@);
    for i in 0..m
        invariant
            m == lines.len(),
            m > 0,
            ls == lines@.map_values(|s: String| s@),
            text@ == start + joined(ls.take(i as int)),
    {
        assert(ls.take(i + 1).drop_last() =~= ls.take(i as int));
        assert(ls.take(i + 1).last() == lines@[i as int]@);
        if i > 0 {
            push_all(&mut text, "\n");
            proof {
                reveal_strlit("\n");
            }
        }
        push_all(&mut text, lines[i].as_str());
        assert(i == 0 ==> ls.take(i as int) =~= Seq::<Seq<char>>::empty());
        assert(text@ =~= start + joined(ls.take(i + 1)));
    }
    assert(ls.take(m as int) =~= ls);
    RunOutcome { failed_services: m, report: Some(Error::Msg(text)) }
}

} // verus!
