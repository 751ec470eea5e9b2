//! What the progress display knows of a run, and the lines it shows.
use vstd::prelude::*;

use crate::controller::{all_services, service_index, MemberStatus, ProgressEvent, Service};
use crate::text::{decimal, owned, pad_left, pad_right, push_all, push_char, push_padded_decimal,
    push_padded_right};

verus! {

/// The width that member counters are padded to.
pub const PROGRESS_COUNT_MIN_WIDTH: usize = 2;

/// The width that status labels are padded to in the terminal.
pub const STATUS_LABEL_WIDTH: usize = 10;

/// The frames of the spinner shown beside members being saved.
pub open spec fn spinner_frames() -> Seq<char> {
    seq!['|', '/', '-', '\\']
}

/// One member of a service, as last reported.
pub struct MemberRow {
    pub index: usize,
    pub total_members: usize,
    pub name: String,
    pub status: MemberStatus,
}

pub struct MemberRowView {
    pub index: usize,
    pub total_members: usize,
    pub name: Seq<char>,
    pub status: MemberStatus,
}

impl View for MemberRow {
    type V = MemberRowView;

    open spec fn view(&self) -> MemberRowView {
        MemberRowView {
            index: self.index,
            total_members: self.total_members,
            name: self.name@,
            status: self.status,
        }
    }
}

/// A service that has reported something.
pub struct ServiceRows {
    pub retrying: bool,
    pub failed: bool,
    /// Members by increasing index, each index once.
    pub members: Vec<MemberRow>,
}

pub struct ServiceView {
    pub retrying: bool,
    pub failed: bool,
    pub members: Seq<MemberRowView>,
}

pub open spec fn rows_view(ms: Seq<MemberRow>) -> Seq<MemberRowView> {
    ms.map_values(|m: MemberRow| m@)
}

impl View for ServiceRows {
    type V = ServiceView;

    open spec fn view(&self) -> ServiceView {
        ServiceView { retrying: self.retrying, failed: self.failed, members: rows_view(self.members@) }
    }
}

pub open spec fn opt_service_view(s: Option<ServiceRows>) -> Option<ServiceView> {
    match s {
        Some(r) => Some(r@),
        None => None,
    }
}

/// What the display knows: the spinner's frame, and for each service (in
/// the order of `all_services`) what it has reported, if anything.
pub struct ProgressState {
    pub spinner_frame: usize,
    pub services: Vec<Option<ServiceRows>>,
}

pub struct ProgressView {
    pub spinner_frame: usize,
    pub services: Seq<Option<ServiceView>>,
}

impl View for ProgressState {
    type V = ProgressView;

    open spec fn view(&self) -> ProgressView {
        ProgressView {
            spinner_frame: self.spinner_frame,
            services: self.services@.map_values(|s: Option<ServiceRows>| opt_service_view(s)),
        }
    }
}

pub open spec fn rows_sorted(ms: Seq<MemberRowView>) -> bool {
    forall|i: int, j: int| 0 <= i < j < ms.len() ==> ms[i].index < ms[j].index
}

impl ProgressView {
    pub open spec fn wf(self) -> bool {
        &&& self.services.len() == 6
        &&& self.spinner_frame < 4
        &&& forall|i: int|
            0 <= i < 6 ==> (#[trigger] self.services[i] matches Some(v) ==> rows_sorted(v.members))
    }
}

/// A member row reported again under its index replaces the old one; a new
/// index takes its place in the order.
pub open spec fn put_row(ms: Seq<MemberRowView>, m: MemberRowView) -> Seq<MemberRowView>
    decreases ms.len(),
{
    if ms.len() == 0 {
        seq![m]
    } else if ms.last().index == m.index {
        ms.drop_last().push(m)
    } else if ms.last().index < m.index {
        ms.push(m)
    } else {
        put_row(ms.drop_last(), m).push(ms.last())
    }
}

/// A member reported again shows its last report, once; the rows of the
/// other members stay, and no other row appears.
pub proof fn lemma_put_row_content(ms: Seq<MemberRowView>, m: MemberRowView)
    requires
        rows_sorted(ms),
    ensures
        put_row(ms, m).contains(m),
        forall|r: MemberRowView| ms.contains(r) && r.index != m.index ==> #[trigger] put_row(ms, m).contains(r),
        forall|r: MemberRowView|
            #[trigger] put_row(ms, m).contains(r) ==> r == m || (ms.contains(r) && r.index != m.index),
    decreases ms.len(),
{
    let p = put_row(ms, m);
    if ms.len() == 0 {
        assert(p[0] == m);
        assert forall|r: MemberRowView| p.contains(r) implies r == m || (ms.contains(r) && r.index != m.index) by {
            let k = choose|k: int| 0 <= k < p.len() && p[k] == r;
            assert(k == 0);
        }
    } else {
        let t = ms.drop_last();
        let last = ms.last();
        assert forall|a: int, b: int| 0 <= a < b < t.len() implies t[a].index < t[b].index by {
            assert(t[a] == ms[a] && t[b] == ms[b]);
        }
        assert forall|r: MemberRowView| ms.contains(r) implies r == last || t.contains(r) by {
            let k = choose|k: int| 0 <= k < ms.len() && ms[k] == r;
            if k < ms.len() - 1 {
                assert(t[k] == r);
            }
        }
        assert forall|r: MemberRowView| t.contains(r) implies ms.contains(r) && r.index < last.index by {
            let k = choose|k: int| 0 <= k < t.len() && t[k] == r;
            assert(ms[k] == r);
        }
        if last.index == m.index {
            assert(p == t.push(m));
            assert(p[p.len() - 1] == m);
            assert forall|r: MemberRowView| ms.contains(r) && r.index != m.index implies p.contains(r) by {
                let k = choose|k: int| 0 <= k < t.len() && t[k] == r;
                assert(p[k] == r);
            }
            assert forall|r: MemberRowView| p.contains(r) implies r == m || (ms.contains(r) && r.index != m.index) by {
                let k = choose|k: int| 0 <= k < p.len() && p[k] == r;
                if k < t.len() {
                    assert(t[k] == r);
                }
            }
        } else if last.index < m.index {
            assert(p == ms.push(m));
            assert(p[p.len() - 1] == m);
            assert forall|r: MemberRowView| ms.contains(r) && r.index != m.index implies p.contains(r) by {
                let k = choose|k: int| 0 <= k < ms.len() && ms[k] == r;
                assert(p[k] == r);
            }
            assert forall|r: MemberRowView| p.contains(r) implies r == m || (ms.contains(r) && r.index != m.index) by {
                let k = choose|k: int| 0 <= k < p.len() && p[k] == r;
                if k < ms.len() {
                    assert(ms[k] == r);
                    assert(r == last || t.contains(r));
                }
            }
        } else {
            lemma_put_row_content(t, m);
            let u = put_row(t, m);
            assert(p == u.push(last));
            let km = choose|k: int| 0 <= k < u.len() && u[k] == m;
            assert(p[km] == m);
            assert forall|r: MemberRowView| ms.contains(r) && r.index != m.index implies p.contains(r) by {
                if r == last {
                    assert(p[p.len() - 1] == r);
                } else {
                    assert(t.contains(r));
                    assert(u.contains(r));
                    let k = choose|k: int| 0 <= k < u.len() && u[k] == r;
                    assert(p[k] == r);
                }
            }
            assert forall|r: MemberRowView| p.contains(r) implies r == m || (ms.contains(r) && r.index != m.index) by {
                let k = choose|k: int| 0 <= k < p.len() && p[k] == r;
                if k < u.len() {
                    assert(u[k] == r);
                    assert(u.contains(r));
                } else {
                    assert(r == last);
                    assert(ms[ms.len() - 1] == r);
                }
            }
        }
    }
}

pub open spec fn fresh_service(retrying: bool) -> ServiceView {
    ServiceView { retrying: retrying, failed: false, members: Seq::empty() }
}

/// What an event does to what is known of its service.
pub open spec fn after_event(old: Option<ServiceView>, event: ProgressEvent) -> ServiceView {
    match event {
        ProgressEvent::ServiceStarted { .. } => fresh_service(false),
        ProgressEvent::ServiceRetrying { .. } => match old {
            Some(v) => ServiceView { retrying: true, ..v },
            None => fresh_service(true),
        },
        ProgressEvent::ServiceFinished { success, .. } => {
            let v = match old {
                Some(v) => v,
                None => fresh_service(false),
            };
            ServiceView { retrying: false, failed: !success, ..v }
        },
        ProgressEvent::Member { index, total_members, name, status, .. } => {
            let v = match old {
                Some(v) => v,
                None => fresh_service(false),
            };
            ServiceView {
                members: put_row(
                    v.members,
                    MemberRowView {
                        index: index,
                        total_members: total_members,
                        name: name@,
                        status: status,
                    },
                ),
                ..v
            }
        },
    }
}

pub open spec fn event_service(event: ProgressEvent) -> Service {
    match event {
        ProgressEvent::ServiceStarted { service } => service,
        ProgressEvent::ServiceRetrying { service } => service,
        ProgressEvent::ServiceFinished { service, .. } => service,
        ProgressEvent::Member { service, .. } => service,
    }
}

proof fn lemma_put_row_at(ms: Seq<MemberRowView>, m: MemberRowView, j: int, replace: bool)
    requires
        rows_sorted(ms),
        0 <= j <= ms.len(),
        forall|k: int| j <= k < ms.len() ==> ms[k].index > m.index,
        replace ==> j > 0 && ms[j - 1].index == m.index,
        !replace ==> (j == 0 || ms[j - 1].index < m.index),
    ensures
        replace ==> put_row(ms, m) == ms.update(j - 1, m),
        !replace ==> put_row(ms, m) == ms.take(j) + seq![m] + ms.skip(j),
        rows_sorted(put_row(ms, m)),
    decreases ms.len(),
{
    if ms.len() == 0 {
        assert(ms.take(j) + seq![m] + ms.skip(j) =~= seq![m]);
    } else if j == ms.len() {
        if replace {
            assert(ms.drop_last().push(m) =~= ms.update(j - 1, m));
            let r = ms.update(j - 1, m);
            assert forall|a: int, b: int| 0 <= a < b < r.len() implies r[a].index < r[b].index by {
                if b == j - 1 {
                    assert(r[a] == ms[a]);
                } else {
                    assert(r[a] == ms[a] && r[b] == ms[b]);
                }
            }
        } else {
            assert(ms.take(j) + seq![m] + ms.skip(j) =~= ms.push(m));
            let r = ms.push(m);
            assert forall|a: int, b: int| 0 <= a < b < r.len() implies r[a].index < r[b].index by {
                if b == ms.len() {
                    assert(r[a] == ms[a]);
                    assert(ms[a].index <= ms[j - 1].index);
                } else {
                    assert(r[a] == ms[a] && r[b] == ms[b]);
                }
            }
        }
    } else {
        let t = ms.drop_last();
        assert forall|a: int, b: int| 0 <= a < b < t.len() implies t[a].index < t[b].index by {
            assert(t[a] == ms[a] && t[b] == ms[b]);
        }
        lemma_put_row_at(t, m, j, replace);
        let u = put_row(t, m);
        if replace {
            assert(u.push(ms.last()) =~= ms.update(j - 1, m));
        } else {
            assert(u.push(ms.last()) =~= ms.take(j) + seq![m] + ms.skip(j));
        }
        let r = u.push(ms.last());
        assert forall|a: int, b: int| 0 <= a < b < r.len() implies r[a].index < r[b].index by {
            if b == r.len() - 1 {
                if replace {
                    if a == j - 1 {
                        assert(r[a] == m);
                    } else {
                        assert(r[a] == ms[a]);
                    }
                } else {
                    if a < j {
                        assert(r[a] == ms[a]);
                    } else if a == j {
                        assert(r[a] == m);
                    } else {
                        assert(r[a] == ms[a - 1]);
                    }
                }
            } else {
                assert(r[a] == u[a] && r[b] == u[b]);
            }
        }
    }
}

fn put_member_row(ms: &mut Vec<MemberRow>, m: MemberRow)
    requires
        rows_sorted(rows_view(old(ms)@)),
    ensures
        rows_view(final(ms)@) == put_row(rows_view(old(ms)@), m@),
        rows_sorted(rows_view(final(ms)@)),
{
    let ghost s = rows_view(ms@);
    let mut j = ms.len();
    while j > 0 && ms[j - 1].index > m.index
        invariant
            j <= ms.len(),
            s == rows_view(ms@),
            forall|k: int| j <= k < s.len() ==> s[k].index > m.index,
        decreases j,
    {
        j = j - 1;
    }
    if j > 0 && ms[j - 1].index == m.index {
        proof {
            lemma_put_row_at(s, m@, j as int, true);
        }
        ms.set(j - 1, m);
        assert(rows_view(ms@) =~= s.update(j - 1, m@));
    } else {
        proof {
            lemma_put_row_at(s, m@, j as int, false);
        }
        ms.insert(j, m);
        assert(rows_view(ms@) =~= s.take(j as int) + seq![m@] + s.skip(j as int));
    }
}

impl ProgressState {
    /// Nothing reported yet.
    pub fn new() -> (r: ProgressState)
        ensures
            r@.wf(),
            r@.spinner_frame == 0,
            forall|i: int| 0 <= i < 6 ==> #[trigger] r@.services[i] is None,
    {
        let mut services: Vec<Option<ServiceRows>> = Vec::new();
        for i in 0..6
            invariant
                services.len() == i,
                forall|k: int| 0 <= k < i ==> #[trigger] services@[k] is None,
        {
            services.push(None);
        }
        let r = ProgressState { spinner_frame: 0, services };
        assert forall|i: int| 0 <= i < 6 implies #[trigger] r@.services[i] is None by {
            assert(r.services@[i] is None);
        }
        r
    }

    /// Records an event: what is known of the event's service becomes
    /// `after_event` of what was known; nothing else changes.
    pub fn handle(&mut self, event: &ProgressEvent)
        requires
            old(self)@.wf(),
        ensures
            final(self)@.wf(),
            final(self)@.spinner_frame == old(self)@.spinner_frame,
            final(self)@.services == old(self)@.services.update(
                service_index(event_service(*event)),
                Some(after_event(old(self)@.services[service_index(event_service(*event))], *event)),
            ),
    {
        let ghost old_view = self@;
        let (service, idx) = match event {
            ProgressEvent::ServiceStarted { service } => (*service, index_of(*service)),
            ProgressEvent::ServiceRetrying { service } => (*service, index_of(*service)),
            ProgressEvent::ServiceFinished { service, .. } => (*service, index_of(*service)),
            ProgressEvent::Member { service, .. } => (*service, index_of(*service)),
        };
        let old_entry = self.services.remove(idx);
        assert(opt_service_view(old_entry) == old_view.services[idx as int]);
        let new_entry: ServiceRows = match event {
            ProgressEvent::ServiceStarted { .. } => ServiceRows {
                retrying: false,
                failed: false,
                members: Vec::new(),
            },
            ProgressEvent::ServiceRetrying { .. } => match old_entry {
                Some(v) => ServiceRows { retrying: true, failed: v.failed, members: v.members },
                None => ServiceRows { retrying: true, failed: false, members: Vec::new() },
            },
            ProgressEvent::ServiceFinished { success, .. } => match old_entry {
                Some(v) => ServiceRows { retrying: false, failed: !*success, members: v.members },
                None => ServiceRows { retrying: false, failed: !*success, members: Vec::new() },
            },
            ProgressEvent::Member { index, total_members, name, status, .. } => {
                let mut v = match old_entry {
                    Some(v) => v,
                    None => ServiceRows { retrying: false, failed: false, members: Vec::new() },
                };
                assert(rows_sorted(rows_view(v.members@))) by {
                    assert(old_view.services[idx as int] matches Some(w) ==> rows_sorted(w.members));
                    assert(rows_view(Seq::<MemberRow>::empty()) =~= Seq::<MemberRowView>::empty());
                }
                put_member_row(
                    &mut v.members,
                    MemberRow {
                        index: *index,
                        total_members: *total_members,
                        name: name.clone(),
                        status: *status,
                    },
                );
                v
            },
        };
        assert(rows_view(Seq::<MemberRow>::empty()) =~= Seq::<MemberRowView>::empty());
        assert(new_entry@ == after_event(old_view.services[idx as int], *event));
        self.services.insert(idx, Some(new_entry));
        assert(self@.services =~= old_view.services.update(
            idx as int,
            Some(after_event(old_view.services[idx as int], *event)),
        ));
        assert forall|i: int| 0 <= i < 6 implies (#[trigger] self@.services[i] matches Some(v)
            ==> rows_sorted(v.members)) by {
            if i != idx {
                assert(self@.services[i] == old_view.services[i]);
            }
        }
    }

    /// Whether some member is being saved.
    pub open spec fn spec_has_active_members(self) -> bool {
        exists|i: int| 0 <= i < 6 && #[trigger] service_saving(self@.services[i])
    }

    pub fn has_active_members(&self) -> (r: bool)
        requires
            self@.wf(),
        ensures
            r == self.spec_has_active_members(),
    {
        for i in 0..6
            invariant
                self@.wf(),
                forall|a: int| 0 <= a < i ==> !#[trigger] service_saving(self@.services[a]),
        {
            match &self.services[i] {
                Some(v) => {
                    assert(self@.services[i as int] == Some(v@));
                    let n = v.members.len();
                    for j in 0..n
                        invariant
                            n == v.members.len(),
                            i < 6,
                            self@.services[i as int] == Some(v@),
                            forall|b: int| 0 <= b < j ==> v.members@[b].status != MemberStatus::Saving,
                    {
                        if v.members[j].status == MemberStatus::Saving {
                            assert(self@.services[i as int] == Some(v@));
                            assert(v@.members[j as int].status == MemberStatus::Saving);
                            assert(service_saving(self@.services[i as int]));
                            return true;
                        }
                    }
                    assert(self@.services[i as int] == Some(v@));
                    assert(!service_saving(self@.services[i as int]));
                },
                None => {},
            }
        }
        false
    }

    /// A terminal animates the spinner while some member is being saved.
    pub fn tick(&mut self, is_terminal: bool)
        requires
            old(self)@.wf(),
        ensures
            final(self)@.wf(),
            final(self)@.services == old(self)@.services,
            final(self)@.spinner_frame == if is_terminal && old(self).spec_has_active_members() {
                (old(self)@.spinner_frame + 1) % 4
            } else {
                old(self)@.spinner_frame as int
            },
    {
        if !is_terminal || !self.has_active_members() {
            return;
        }
        self.spinner_frame = (self.spinner_frame + 1) % 4;
    }
}

/// Whether some member of a service is being saved.
pub open spec fn service_saving(o: Option<ServiceView>) -> bool {
    match o {
        Some(v) => exists|j: int| 0 <= j < v.members.len() && v.members[j].status == MemberStatus::Saving,
        None => false,
    }
}

/// Whether a service's member list is small enough to count in 32 bits.
pub open spec fn countable(o: Option<ServiceView>) -> bool {
    match o {
        Some(v) => v.members.len() < 0x1_0000_0000,
        None => true,
    }
}

fn index_of(s: Service) -> (r: usize)
    ensures
        r == service_index(s),
        r < 6,
{
    match s {
        Service::Sakurazaka => 0,
        Service::Hinatazaka => 1,
        Service::Nogizaka => 2,
        Service::Asukasaito => 3,
        Service::Maishiraishi => 4,
        Service::Yodel => 5,
    }
}

// ----------------------------------------------------------------------------
// Lines
// ----------------------------------------------------------------------------

pub open spec fn status_text(status: MemberStatus) -> Seq<char> {
    match status {
        MemberStatus::Saving => "downloading"@,
        MemberStatus::Done => "done"@,
        MemberStatus::Failed => "failed"@,
    }
}

pub fn status_label(status: MemberStatus) -> (r: &'static str)
    ensures
        r@ == status_text(status),
{
    match status {
        MemberStatus::Saving => "downloading",
        MemberStatus::Done => "done",
        MemberStatus::Failed => "failed",
    }
}

/// `<index>/<total>`, each right-aligned in two places.
pub open spec fn counter_text(index: usize, total: usize) -> Seq<char> {
    pad_left(decimal(index as nat), 2, ' ') + seq!['/'] + pad_left(decimal(total as nat), 2, ' ')
}

/// The log line of an event, where one is written (when the output is not
/// a terminal).
pub open spec fn log_line_text(event: ProgressEvent) -> Option<Seq<char>> {
    match event {
        ProgressEvent::ServiceStarted { .. } => None,
        ProgressEvent::ServiceFinished { .. } => None,
        ProgressEvent::ServiceRetrying { service } => Some(
            service.spec_name() + ": authorization expired; retrying"@,
        ),
        ProgressEvent::Member { service, index, total_members, name, status } => Some(
            seq!['['] + service.spec_name() + seq![' '] + counter_text(index, total_members) + "] "@
                + status_text(status) + ": "@ + name@,
        ),
    }
}

fn push_counter(s: &mut String, index: usize, total: usize)
    ensures
        final(s)@ == old(s)@ + counter_text(index, total),
{
    let ghost start = s@;
    push_padded_decimal(s, index as u64, PROGRESS_COUNT_MIN_WIDTH, ' ');
    push_char(s, '/');
    push_padded_decimal(s, total as u64, PROGRESS_COUNT_MIN_WIDTH, ' ');
    assert(s@ =~= start + counter_text(index, total));
}

/// The log line of an event, where one is written.
pub fn log_line(event: &ProgressEvent) -> (r: Option<String>)
    ensures
        match r {
            Some(l) => log_line_text(*event) == Some(l@),
            None => log_line_text(*event) is None,
        },
{
    match event {
        ProgressEvent::ServiceStarted { .. } => None,
        ProgressEvent::ServiceFinished { .. } => None,
        ProgressEvent::ServiceRetrying { service } => {
            let mut l = owned(service.name());
            push_all(&mut l, ": authorization expired; retrying");
            Some(l)
        },
        ProgressEvent::Member { service, index, total_members, name, status } => {
            let mut l = String::new();
            push_char(&mut l, '[');
            push_all(&mut l, service.name());
            push_char(&mut l, ' ');
            push_counter(&mut l, *index, *total_members);
            push_all(&mut l, "] ");
            push_all(&mut l, status_label(*status));
            push_all(&mut l, ": ");
            push_all(&mut l, name.as_str());
            assert(l@ =~= seq!['['] + service.spec_name() + seq![' '] + counter_text(
                *index,
                *total_members,
            ) + "] "@ + status_text(*status) + ": "@ + name@);
            Some(l)
        },
    }
}

/// The terminal line of a service's header: its name, and whether it failed
/// or is being retried.
pub open spec fn header_text(service: Service, v: ServiceView) -> Seq<char> {
    service.spec_name() + if v.failed {
        " (failed)"@
    } else if v.retrying {
        " (retrying)"@
    } else {
        Seq::empty()
    }
}

/// The terminal line of a member: counter, spinner (while saving), status,
/// name.
pub open spec fn member_line_text(m: MemberRowView, spinner_frame: int) -> Seq<char> {
    "  ["@ + counter_text(m.index, m.total_members) + "] "@ + seq![
        if m.status == MemberStatus::Saving { spinner_frames()[spinner_frame] } else { ' ' },
    ] + seq![' '] + pad_right(status_text(m.status), 10, ' ') + seq![' '] + m.name
}

pub open spec fn member_lines_text(ms: Seq<MemberRowView>, spinner_frame: int) -> Seq<Seq<char>>
    decreases ms.len(),
{
    if ms.len() == 0 {
        Seq::empty()
    } else {
        member_lines_text(ms.drop_last(), spinner_frame).push(
            member_line_text(ms.last(), spinner_frame),
        )
    }
}

/// The lines of the services `0..k`, in the order of `all_services`; a
/// service without members shows nothing.
pub open spec fn screen_lines(v: ProgressView, k: int) -> Seq<Seq<char>>
    decreases k,
{
    if k <= 0 {
        Seq::empty()
    } else {
        screen_lines(v, k - 1) + match v.services[k - 1] {
            Some(s) => if s.members.len() == 0 {
                Seq::empty()
            } else {
                seq![header_text(all_services()[k - 1], s)] + member_lines_text(
                    s.members,
                    v.spinner_frame as int,
                )
            },
            None => Seq::empty(),
        }
    }
}

fn spinner_char(frame: usize) -> (r: char)
    requires
        frame < 4,
    ensures
        r == spinner_frames()[frame as int],
{
    if frame == 0 {
        '|'
    } else if frame == 1 {
        '/'
    } else if frame == 2 {
        '-'
    } else {
        '\\'
    }
}

fn member_line(m: &MemberRow, spinner_frame: usize) -> (r: String)
    requires
        spinner_frame < 4,
    ensures
        r@ == member_line_text(m@, spinner_frame as int),
{
    let mut l = owned("  [");
    push_counter(&mut l, m.index, m.total_members);
    push_all(&mut l, "] ");
    let spin = if m.status == MemberStatus::Saving {
        spinner_char(spinner_frame)
    } else {
        ' '
    };
    push_char(&mut l, spin);
    push_char(&mut l, ' ');
    push_padded_right(&mut l, status_label(m.status), STATUS_LABEL_WIDTH, ' ');
    push_char(&mut l, ' ');
    push_all(&mut l, m.name.as_str());
    assert(l@ =~= member_line_text(m@, spinner_frame as int));
    l
}

pub open spec fn lines_view(v: Seq<String>) -> Seq<Seq<char>> {
    v.map_values(|s: String| s@)
}

impl ProgressState {
    /// The lines that the terminal shows (before they are cut to its width).
    pub fn screen(&self) -> (r: Vec<String>)
        requires
            self@.wf(),
        ensures
            lines_view(r@) == screen_lines(self@, 6),
    {
        let all = Service::all();
        let mut r: Vec<String> = Vec::new();
        for i in 0..6
            invariant
                self@.wf(),
                all@ == all_services(),
                lines_view(r@) == screen_lines(self@, i as int),
        {
            match &self.services[i] {
                Some(v) => {
                    assert(self@.services[i as int] == Some(v@));
                    if v.members.len() > 0 {
                        let service = all[i];
                        let mut header = owned(service.name());
                        if v.failed {
                            push_all(&mut header, " (failed)");
                        } else if v.retrying {
                            push_all(&mut header, " (retrying)");
                        }
                        assert(header@ =~= header_text(service, v@));
                        let ghost base = lines_view(r@);
                        r.push(header);
                        let n = v.members.len();
                        for j in 0..n
                            invariant
                                n == v.members.len(),
                                self.spinner_frame < 4,
                                lines_view(r@) == base + seq![header_text(all_services()[i as int], v@)]
                                    + member_lines_text(rows_view(v.members@).take(j as int), self.spinner_frame as int),
                        {
                            let ghost before = lines_view(r@);
                            assert(rows_view(v.members@).take(j + 1).drop_last() =~= rows_view(v.members@).take(j as int));
                            assert(rows_view(v.members@).take(j + 1).last() == v.members@[j as int]@);
                            r.push(member_line(&v.members[j], self.spinner_frame));
                            assert(lines_view(r@) =~= before.push(member_line_text(v.members@[j as int]@, self.spinner_frame as int)));
                        }
                        assert(rows_view(v.members@).take(n as int) =~= rows_view(v.members@));
                    }
                    assert(lines_view(r@) =~= screen_lines(self@, i + 1));
                },
                None => {
                    assert(lines_view(r@) =~= screen_lines(self@, i + 1));
                },
            }
        }
        r
    }
}

/// What the console crate's `truncate_str(s, width, tail)` gives: the text
/// cut to `width` terminal columns, ending with `tail` where it was cut.
pub uninterp spec fn console_truncate(s: Seq<char>, width: usize, tail: Seq<char>) -> Seq<char>;

/// The mark that ends a line cut to the terminal's width.
pub open spec fn ellipsis() -> Seq<char> {
    "\u{2026}"@
}

/// Cuts a line to a width in terminal columns with the console crate's
/// `truncate_str`; the result is named by `console_truncate`. The crate
/// subtracts the tail's width from `width` without a check, so the tail is
/// the one-column ellipsis and the width at least one column.
#[verifier::external_body]
fn truncate_line(s: &str, width: usize, tail: &str) -> (r: String)
    requires
        width >= 1,
        tail@ == ellipsis(),
    ensures
        r@ == console_truncate(s@, width, tail@),
{
    console::truncate_str(s, width, tail).into_owned()
}

/// The columns that a line may fill: one less than the terminal's width,
/// and at least one.
pub open spec fn line_width_of(terminal_width: u16) -> usize {
    if terminal_width <= 1 {
        1
    } else {
        (terminal_width - 1) as usize
    }
}

pub fn line_width(terminal_width: u16) -> (r: usize)
    ensures
        r == line_width_of(terminal_width),
        r >= 1,
{
    if terminal_width <= 1 {
        1
    } else {
        (terminal_width - 1) as usize
    }
}

impl ProgressState {
    /// The lines that a terminal of `terminal_width` columns shows: those of
    /// `screen`, each cut to `line_width`.
    pub fn terminal_lines(&self, terminal_width: u16) -> (r: Vec<String>)
        requires
            self@.wf(),
        ensures
            r@.len() == screen_lines(self@, 6).len(),
            forall|i: int|
                0 <= i < r@.len() ==> #[trigger] r@[i]@ == console_truncate(
                    screen_lines(self@, 6)[i],
                    line_width_of(terminal_width),
                    ellipsis(),
                ),
    {
        let lines = self.screen();
        let width = line_width(terminal_width);
        let tail = "\u{2026}";
        proof {
            reveal_strlit("\u{2026}");
        }
        let mut r: Vec<String> = Vec::new();
        let n = lines.len();
        for i in 0..n
            invariant
                n == lines.len(),
                width == line_width_of(terminal_width),
                width >= 1,
                tail@ == ellipsis(),
                lines_view(lines@) == screen_lines(self@, 6),
                r@.len() == i,
                forall|k: int|
                    0 <= k < i ==> #[trigger] r@[k]@ == console_truncate(
                        screen_lines(self@, 6)[k],
                        width,
                        ellipsis(),
                    ),
        {
            assert(lines_view(lines@)[i as int] == lines@[i as int]@);
            r.push(truncate_line(lines[i].as_str(), width, tail));
        }
        r
    }
}

// ----------------------------------------------------------------------------
// The final count
// ----------------------------------------------------------------------------

/// How many members of the services `0..k` are done and how many failed.
pub open spec fn counts(v: ProgressView, k: int) -> (nat, nat)
    decreases k,
{
    if k <= 0 {
        (0, 0)
    } else {
        let (d, f) = counts(v, k - 1);
        match v.services[k - 1] {
            Some(s) => (d + done_count(s.members), f + failed_count(s.members)),
            None => (d, f),
        }
    }
}

/// Every member row of the services `0..k`, service after service.
pub open spec fn all_rows(v: ProgressView, k: int) -> Seq<MemberRowView>
    decreases k,
{
    if k <= 0 {
        Seq::empty()
    } else {
        all_rows(v, k - 1) + match v.services[k - 1] {
            Some(s) => s.members,
            None => Seq::empty(),
        }
    }
}

/// The final count adds up every service: the members counted as saved are
/// all the rows marked done, and those counted as failed all the rows marked
/// failed, whichever services they belong to.
pub proof fn lemma_counts_cover_every_service(v: ProgressView, k: int)
    requires
        0 <= k,
    ensures
        counts(v, k).0 == all_rows(v, k).filter(|m: MemberRowView| m.status == MemberStatus::Done).len(),
        counts(v, k).1 == all_rows(v, k).filter(|m: MemberRowView| m.status == MemberStatus::Failed).len(),
    decreases k,
{
    let done = |m: MemberRowView| m.status == MemberStatus::Done;
    let failed = |m: MemberRowView| m.status == MemberStatus::Failed;
    if k == 0 {
        assert(all_rows(v, 0).filter(done) =~= Seq::<MemberRowView>::empty());
        assert(all_rows(v, 0).filter(failed) =~= Seq::<MemberRowView>::empty());
    } else {
        lemma_counts_cover_every_service(v, k - 1);
        let before = all_rows(v, k - 1);
        let here = match v.services[k - 1] {
            Some(s) => s.members,
            None => Seq::<MemberRowView>::empty(),
        };
        Seq::filter_distributes_over_add(before, here, done);
        Seq::filter_distributes_over_add(before, here, failed);
        assert(Seq::<MemberRowView>::empty().filter(done) =~= Seq::<MemberRowView>::empty());
        assert(Seq::<MemberRowView>::empty().filter(failed) =~= Seq::<MemberRowView>::empty());
    }
}

pub open spec fn done_count(ms: Seq<MemberRowView>) -> nat {
    ms.filter(|m: MemberRowView| m.status == MemberStatus::Done).len()
}

pub open spec fn failed_count(ms: Seq<MemberRowView>) -> nat {
    ms.filter(|m: MemberRowView| m.status == MemberStatus::Failed).len()
}

fn count_rows(ms: &Vec<MemberRow>) -> (r: (usize, usize))
    ensures
        r.0 == done_count(rows_view(ms@)),
        r.1 == failed_count(rows_view(ms@)),
        r.0 <= ms.len(),
        r.1 <= ms.len(),
{
    let mut done: usize = 0;
    let mut failed: usize = 0;
    let n = ms.len();
    let ghost done_p = |m: MemberRowView| m.status == MemberStatus::Done;
    let ghost failed_p = |m: MemberRowView| m.status == MemberStatus::Failed;
    for i in 0..n
        invariant
            n == ms.len(),
            done_p == (|m: MemberRowView| m.status == MemberStatus::Done),
            failed_p == (|m: MemberRowView| m.status == MemberStatus::Failed),
            done == rows_view(ms@).take(i as int).filter(done_p).len(),
            failed == rows_view(ms@).take(i as int).filter(failed_p).len(),
            done <= i,
            failed <= i,
    {
        let ghost t = rows_view(ms@).take(i + 1);
        assert(t.drop_last() =~= rows_view(ms@).take(i as int));
        assert(t.last() == ms@[i as int]@);
        reveal_with_fuel(Seq::<_>::filter, 1);
        match ms[i].status {
            MemberStatus::Done => {
                done = done + 1;
            },
            MemberStatus::Failed => {
                failed = failed + 1;
            },
            MemberStatus::Saving => {},
        }
    }
    assert(rows_view(ms@).take(n as int) =~= rows_view(ms@));
    (done, failed)
}

impl ProgressState {
    /// How many members are done and how many failed.
    pub fn member_counts(&self) -> (r: (u64, u64))
        requires
            self@.wf(),
            forall|i: int| 0 <= i < 6 ==> #[trigger] countable(self@.services[i]),
        ensures
            r.0 == counts(self@, 6).0,
            r.1 == counts(self@, 6).1,
            r.0 == all_rows(self@, 6).filter(|m: MemberRowView| m.status == MemberStatus::Done).len(),
            r.1 == all_rows(self@, 6).filter(|m: MemberRowView| m.status == MemberStatus::Failed).len(),
    {
        proof {
            lemma_counts_cover_every_service(self@, 6);
        }
        let mut done: u64 = 0;
        let mut failed: u64 = 0;
        for i in 0..6
            invariant
                self@.wf(),
                forall|k: int| 0 <= k < 6 ==> #[trigger] countable(self@.services[k]),
                done == counts(self@, i as int).0,
                failed == counts(self@, i as int).1,
                done <= i * 0x1_0000_0000,
                failed <= i * 0x1_0000_0000,
        {
            match &self.services[i] {
                Some(v) => {
                    assert(self@.services[i as int] == Some(v@));
                    assert(countable(self@.services[i as int]));
                    assert(rows_view(v.members@).len() == v.members.len());
                    let (d, f) = count_rows(&v.members);
                    done = done + d as u64;
                    failed = failed + f as u64;
                },
                None => {},
            }
        }
        (done, failed)
    }
}

/// The final line: how many members were saved, how many failed, how many
/// services failed; or that no member matched.
pub open spec fn summary_text(done: nat, failed: nat, failed_services: nat) -> Seq<char> {
    let parts = (if done > 0 {
        seq![decimal(done) + (if done == 1 { " member saved"@ } else { " members saved"@ })]
    } else {
        Seq::empty()
    }) + (if failed > 0 {
        seq![decimal(failed) + (if failed == 1 { " member failed"@ } else { " members failed"@ })]
    } else {
        Seq::empty()
    }) + (if failed_services > 0 {
        seq![
            decimal(failed_services) + (if failed_services == 1 {
                " service failed"@
            } else {
                " services failed"@
            }),
        ]
    } else {
        Seq::empty()
    });
    if parts.len() == 0 {
        "No matching members found."@
    } else {
        joined_parts(parts) + seq!['.']
    }
}

/// Parts joined by "; ".
pub open spec fn joined_parts(parts: Seq<Seq<char>>) -> Seq<char>
    decreases parts.len(),
{
    if parts.len() == 0 {
        Seq::empty()
    } else if parts.len() == 1 {
        parts[0]
    } else {
        joined_parts(parts.drop_last()) + "; "@ + parts.last()
    }
}

/// The final line (see `summary_text`).
pub fn summary_line(done: u64, failed: u64, failed_services: u64) -> (r: String)
    ensures
        r@ == summary_text(done as nat, failed as nat, failed_services as nat),
{
    let mut parts: Vec<String> = Vec::new();
    if done > 0 {
        let mut p = String::new();
        crate::text::push_decimal(&mut p, done);
        if done == 1 {
            push_all(&mut p, " member saved");
        } else {
            push_all(&mut p, " members saved");
        }
        parts.push(p);
    }
    if failed > 0 {
        let mut p = String::new();
        crate::text::push_decimal(&mut p, failed);
        if failed == 1 {
            push_all(&mut p, " member failed");
        } else {
            push_all(&mut p, " members failed");
        }
        parts.push(p);
    }
    if failed_services > 0 {
        let mut p = String::new();
        crate::text::push_decimal(&mut p, failed_services);
        if failed_services == 1 {
            push_all(&mut p, " service failed");
        } else {
            push_all(&mut p, " services failed");
        }
        parts.push(p);
    }
    let ghost pv = lines_view(parts@);
    assert(pv =~= (if done > 0 {
        seq![decimal(done as nat) + (if done == 1 { " member saved"@ } else { " members saved"@ })]
    } else {
        Seq::empty()
    }) + (if failed > 0 {
        seq![decimal(failed as nat) + (if failed == 1 { " member failed"@ } else { " members failed"@ })]
    } else {
        Seq::empty()
    }) + (if failed_services > 0 {
        seq![
            decimal(failed_services as nat) + (if failed_services == 1 {
                " service failed"@
            } else {
                " services failed"@
            }),
        ]
    } else {
        Seq::empty()
    }));
    if parts.len() == 0 {
        return owned("No matching members found.");
    }
    let mut line = String::new();
    let k = parts.len();
    for i in 0..k
        invariant
            k == parts.len(),
            k > 0,
            pv == lines_view(parts@),
            line@ == joined_parts(pv.take(i as int)),
    {
        assert(pv.take(i + 1).drop_last() =~= pv.take(i as int));
        assert(pv.take(i + 1).last() == parts@[i as int]@);
        if i > 0 {
            push_all(&mut line, "; ");
        }
        push_all(&mut line, parts[i].as_str());
        assert(i == 0 ==> pv.take(i as int) =~= Seq::<Seq<char>>::empty());
    }
    assert(pv.take(k as int) =~= pv);
    push_char(&mut line, '.');
    line
}

} // verus!
