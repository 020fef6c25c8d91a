//! The permission broker: pending agent permission requests, exact session
//! grants, decisions with safe defaults, and the audit history.

use vstd::prelude::*;
use crate::text::{owned, copy_string, copy_opt_string, string_of, str_eq};
use crate::decimal::{decimal, u64_decimal, lemma_decimal_injective};

verus! {

/// Normalized categories of sensitive agent actions.
#[derive(Debug, Clone, Copy, PartialEq, Eq, Structural)]
pub enum PermissionCategory {
    FilesystemRead,
    FilesystemWrite,
    ShellExecute,
    NetworkOpenUrl,
    McpInvoke,
    Other,
}

/// The kind of an option that the agent offers for a permission request.
#[derive(Debug, Clone, Copy, PartialEq, Eq, Structural)]
pub enum PermissionOptionKind {
    AllowOnce,
    AllowAlways,
    RejectOnce,
    RejectAlways,
}

/// One option offered by the agent.
#[derive(Debug, Clone)]
pub struct PermissionOption {
    pub id: String,
    pub name: String,
    pub kind: PermissionOptionKind,
}

/// A user decision on a pending request.
#[derive(Debug, Clone, Copy, PartialEq, Eq, Structural)]
pub enum PermissionDecision {
    AllowOnce,
    AllowSession,
    Deny,
}

/// How a request ended.
#[derive(Debug, Clone, Copy, PartialEq, Eq, Structural)]
pub enum PermissionResolutionStatus {
    Allowed,
    Denied,
    TimedOut,
    Cancelled,
}

/// Who or what ended a request.
#[derive(Debug, Clone, Copy, PartialEq, Eq, Structural)]
pub enum PermissionResolutionSource {
    User,
    SessionGrant,
    Timeout,
    Cancellation,
}

/// A Vela-owned permission request with its provenance.
#[derive(Debug, Clone)]
pub struct PermissionRequest {
    pub id: String,
    pub agent_id: String,
    pub session_id: String,
    pub run_id: String,
    pub request_id: String,
    pub tool_call_id: String,
    pub category: PermissionCategory,
    pub title: String,
    pub target: Option<String>,
    pub options: Vec<PermissionOption>,
    pub created_at_ms: u64,
    pub expires_at_ms: u64,
}

/// The audit record of one resolved request.
#[derive(Debug, Clone)]
pub struct PermissionAuditRecord {
    pub request: PermissionRequest,
    pub decision: Option<PermissionDecision>,
    pub status: PermissionResolutionStatus,
    pub source: PermissionResolutionSource,
    pub selected_option_id: Option<String>,
    pub resolved_at_ms: u64,
}

/// What an agent asks permission for, before the broker assigns an ID.
#[derive(Debug, Clone)]
pub struct PermissionIntent {
    pub agent_id: String,
    pub session_id: String,
    pub run_id: String,
    pub request_id: String,
    pub tool_call_id: String,
    pub category: PermissionCategory,
    pub title: String,
    pub target: Option<String>,
}

/// The exact scope of an allow-for-session grant.
#[derive(Debug, Clone)]
pub struct GrantKey {
    pub session_id: String,
    pub category: PermissionCategory,
    pub title: String,
    pub target: Option<String>,
}

/// Whether a registered request was answered at once by a session grant.
#[derive(Debug, Clone)]
pub enum TicketResolution {
    Immediate(PermissionAuditRecord),
    Pending,
}

/// The result of registering a request.
#[derive(Debug, Clone)]
pub struct PermissionTicket {
    pub request: PermissionRequest,
    pub resolution: TicketResolution,
}

// ---------------------------------------------------------------------------
// Mathematical model
// ---------------------------------------------------------------------------

pub struct OptionView {
    pub id: Seq<char>,
    pub name: Seq<char>,
    pub kind: PermissionOptionKind,
}

pub struct RequestView {
    pub id: Seq<char>,
    pub agent_id: Seq<char>,
    pub session_id: Seq<char>,
    pub run_id: Seq<char>,
    pub request_id: Seq<char>,
    pub tool_call_id: Seq<char>,
    pub category: PermissionCategory,
    pub title: Seq<char>,
    pub target: Option<Seq<char>>,
    pub options: Seq<OptionView>,
    pub created_at_ms: u64,
    pub expires_at_ms: u64,
}

pub struct RecordView {
    pub request: RequestView,
    pub decision: Option<PermissionDecision>,
    pub status: PermissionResolutionStatus,
    pub source: PermissionResolutionSource,
    pub selected_option_id: Option<Seq<char>>,
    pub resolved_at_ms: u64,
}

pub struct GrantView {
    pub session_id: Seq<char>,
    pub category: PermissionCategory,
    pub title: Seq<char>,
    pub target: Option<Seq<char>>,
}

/// The view of an optional string.
pub open spec fn opt_view(o: Option<String>) -> Option<Seq<char>> {
    match o {
        Some(s) => Some(s@),
        None => None,
    }
}

impl View for PermissionOption {
    type V = OptionView;

    open spec fn view(&self) -> OptionView {
        OptionView { id: self.id@, name: self.name@, kind: self.kind }
    }
}

impl View for PermissionRequest {
    type V = RequestView;

    open spec fn view(&self) -> RequestView {
        RequestView {
            id: self.id@,
            agent_id: self.agent_id@,
            session_id: self.session_id@,
            run_id: self.run_id@,
            request_id: self.request_id@,
            tool_call_id: self.tool_call_id@,
            category: self.category,
            title: self.title@,
            target: opt_view(self.target),
            options: self.options@.map_values(|o: PermissionOption| o@),
            created_at_ms: self.created_at_ms,
            expires_at_ms: self.expires_at_ms,
        }
    }
}

impl View for PermissionAuditRecord {
    type V = RecordView;

    open spec fn view(&self) -> RecordView {
        RecordView {
            request: self.request@,
            decision: self.decision,
            status: self.status,
            source: self.source,
            selected_option_id: opt_view(self.selected_option_id),
            resolved_at_ms: self.resolved_at_ms,
        }
    }
}

impl View for GrantKey {
    type V = GrantView;

    open spec fn view(&self) -> GrantView {
        GrantView {
            session_id: self.session_id@,
            category: self.category,
            title: self.title@,
            target: opt_view(self.target),
        }
    }
}

/// The ID of the first offered option of `kind`, if any.
pub open spec fn first_option_id(options: Seq<OptionView>, kind: PermissionOptionKind) -> Option<
    Seq<char>,
>
    decreases options.len(),
{
    if options.len() == 0 {
        None
    } else if options[0].kind == kind {
        Some(options[0].id)
    } else {
        first_option_id(options.drop_first(), kind)
    }
}

/// The grant scope of a request: exactly its session, category, title and target.
pub open spec fn grant_of(r: RequestView) -> GrantView {
    GrantView { session_id: r.session_id, category: r.category, title: r.title, target: r.target }
}

/// An audit record.
pub open spec fn audit(
    request: RequestView,
    decision: Option<PermissionDecision>,
    status: PermissionResolutionStatus,
    source: PermissionResolutionSource,
    option: Option<Seq<char>>,
    at: u64,
) -> RecordView {
    RecordView {
        request,
        decision,
        status,
        source,
        selected_option_id: option,
        resolved_at_ms: at,
    }
}

/// The record of a request that was cancelled: no decision and no option.
pub open spec fn cancelled(request: RequestView, at: u64) -> RecordView {
    audit(
        request,
        None,
        PermissionResolutionStatus::Cancelled,
        PermissionResolutionSource::Cancellation,
        None,
        at,
    )
}

/// The record of a request that nobody answered in time: no decision and no option.
pub open spec fn timed_out(request: RequestView, at: u64) -> RecordView {
    audit(
        request,
        None,
        PermissionResolutionStatus::TimedOut,
        PermissionResolutionSource::Timeout,
        None,
        at,
    )
}

/// The text of the `n`th permission ID issued by process `pid`.
pub open spec fn permission_id_text(pid: u32, n: u64) -> Seq<char> {
    "permission-"@ + decimal(pid as nat) + "-"@ + decimal(n as nat)
}

/// `id` is one of the first `next` IDs of process `pid`.
pub open spec fn issued(pid: u32, next: u64, id: Seq<char>) -> bool {
    exists|n: u64| n < next && id == permission_id_text(pid, n)
}

/// `min(a + b, u64::MAX)`.
pub open spec fn saturating_sum(a: u64, b: u64) -> u64 {
    if a + b > u64::MAX {
        u64::MAX
    } else {
        (a + b) as u64
    }
}

/// The request that registering `intent` creates.
pub open spec fn request_for(
    intent: PermissionIntent,
    options: Seq<OptionView>,
    id: Seq<char>,
    now: u64,
    timeout_ms: u64,
) -> RequestView {
    RequestView {
        id,
        agent_id: intent.agent_id@,
        session_id: intent.session_id@,
        run_id: intent.run_id@,
        request_id: intent.request_id@,
        tool_call_id: intent.tool_call_id@,
        category: intent.category,
        title: intent.title@,
        target: opt_view(intent.target),
        options,
        created_at_ms: now,
        expires_at_ms: saturating_sum(now, timeout_ms),
    }
}

/// A session filter: `None` selects every session.
pub open spec fn in_scope(filter: Option<Seq<char>>, session_id: Seq<char>) -> bool {
    match filter {
        None => true,
        Some(s) => session_id == s,
    }
}

/// The requests of `s` that the filter selects, in order.
pub open spec fn requests_in(s: Seq<RequestView>, filter: Option<Seq<char>>) -> Seq<RequestView>
    decreases s.len(),
{
    if s.len() == 0 {
        Seq::empty()
    } else if in_scope(filter, s.last().session_id) {
        requests_in(s.drop_last(), filter).push(s.last())
    } else {
        requests_in(s.drop_last(), filter)
    }
}

/// The records of `s` whose request the filter selects, in order.
pub open spec fn records_in(s: Seq<RecordView>, filter: Option<Seq<char>>) -> Seq<RecordView>
    decreases s.len(),
{
    if s.len() == 0 {
        Seq::empty()
    } else if in_scope(filter, s.last().request.session_id) {
        records_in(s.drop_last(), filter).push(s.last())
    } else {
        records_in(s.drop_last(), filter)
    }
}

/// Whether a cancellation of `session` (and of `run`, when given) reaches `r`.
pub open spec fn cancel_reaches(r: RequestView, session: Seq<char>, run: Option<Seq<char>>) -> bool {
    r.session_id == session && match run {
        None => true,
        Some(run) => r.run_id == run,
    }
}

/// The requests that a cancellation does not reach, in order.
pub open spec fn kept_after_cancel(s: Seq<RequestView>, session: Seq<char>, run: Option<Seq<char>>) -> Seq<
    RequestView,
>
    decreases s.len(),
{
    if s.len() == 0 {
        Seq::empty()
    } else if cancel_reaches(s.last(), session, run) {
        kept_after_cancel(s.drop_last(), session, run)
    } else {
        kept_after_cancel(s.drop_last(), session, run).push(s.last())
    }
}

/// The cancellation records of the requests that a cancellation reaches, in order.
pub open spec fn cancelled_by(
    s: Seq<RequestView>,
    session: Seq<char>,
    run: Option<Seq<char>>,
    at: u64,
) -> Seq<RecordView>
    decreases s.len(),
{
    if s.len() == 0 {
        Seq::empty()
    } else if cancel_reaches(s.last(), session, run) {
        cancelled_by(s.drop_last(), session, run, at).push(cancelled(s.last(), at))
    } else {
        cancelled_by(s.drop_last(), session, run, at)
    }
}

/// The grants that belong to other sessions than `session`, in order.
pub open spec fn grants_outside(g: Seq<GrantView>, session: Seq<char>) -> Seq<GrantView>
    decreases g.len(),
{
    if g.len() == 0 {
        Seq::empty()
    } else if g.last().session_id == session {
        grants_outside(g.drop_last(), session)
    } else {
        grants_outside(g.drop_last(), session).push(g.last())
    }
}

/// `s` is ordered by creation time.
pub open spec fn sorted_by_creation(s: Seq<RequestView>) -> bool {
    forall|i: int, j: int| 0 <= i < j < s.len() ==> s[i].created_at_ms <= s[j].created_at_ms
}

/// Where a request created at `at` is queued: after every request created no later.
pub open spec fn queue_position(s: Seq<RequestView>, at: u64, k: int) -> bool {
    &&& 0 <= k <= s.len()
    &&& forall|i: int| 0 <= i < k ==> s[i].created_at_ms <= at
    &&& forall|i: int| k <= i < s.len() ==> s[i].created_at_ms > at
}

/// The index of the first request of `s` with ID `id`, if any.
pub open spec fn index_of(s: Seq<RequestView>, id: Seq<char>, k: int) -> bool {
    &&& 0 <= k < s.len()
    &&& s[k].id == id
    &&& forall|i: int| 0 <= i < k ==> s[i].id != id
}

/// No request of `s` has ID `id`.
pub open spec fn absent(s: Seq<RequestView>, id: Seq<char>) -> bool {
    forall|i: int| 0 <= i < s.len() ==> s[i].id != id
}

// ---------------------------------------------------------------------------
// The broker
// ---------------------------------------------------------------------------

/// Pending requests, exact session grants and the audit history.
pub struct PermissionBroker {
    pending: Vec<PermissionRequest>,
    grants: Vec<GrantKey>,
    history: Vec<PermissionAuditRecord>,
    next_id: u64,
    timeout_ms: u64,
    process_id: u32,
}

impl PermissionBroker {
    /// The pending requests, oldest first.
    pub closed spec fn pending_view(&self) -> Seq<RequestView> {
        self.pending@.map_values(|r: PermissionRequest| r@)
    }

    /// The session grants.
    pub closed spec fn grants_view(&self) -> Seq<GrantView> {
        self.grants@.map_values(|g: GrantKey| g@)
    }

    /// Every resolution so far, in order.
    pub closed spec fn history_view(&self) -> Seq<RecordView> {
        self.history@.map_values(|r: PermissionAuditRecord| r@)
    }

    /// How long a request may stay pending.
    pub closed spec fn timeout(&self) -> u64 {
        self.timeout_ms
    }

    /// The process whose requests this broker numbers.
    pub closed spec fn process(&self) -> u32 {
        self.process_id
    }

    /// The number the next request ID will carry.
    pub closed spec fn next_number(&self) -> u64 {
        self.next_id
    }

    /// The broker's invariant: the queue is ordered by creation time and every
    /// pending ID was issued by this broker, once.
    pub closed spec fn wf(&self) -> bool {
        let p = self.pending_view();
        &&& sorted_by_creation(p)
        &&& forall|i: int| 0 <= i < p.len() ==> issued(self.process_id, self.next_id, #[trigger] p[i].id)
        &&& forall|i: int, j: int| 0 <= i < j < p.len() ==> p[i].id != p[j].id
    }

    /// An empty broker whose requests expire after `timeout_ms`.
    pub fn new(timeout_ms: u64, process_id: u32) -> (b: Self)
        ensures
            b.wf(),
            b.pending_view() == Seq::<RequestView>::empty(),
            b.grants_view() == Seq::<GrantView>::empty(),
            b.history_view() == Seq::<RecordView>::empty(),
            b.timeout() == timeout_ms,
            b.process() == process_id,
            b.next_number() == 1,
    {
        let b = PermissionBroker {
            pending: Vec::new(),
            grants: Vec::new(),
            history: Vec::new(),
            next_id: 1,
            timeout_ms,
            process_id,
        };
        assert(b.pending_view() =~= Seq::<RequestView>::empty());
        assert(b.grants_view() =~= Seq::<GrantView>::empty());
        assert(b.history_view() =~= Seq::<RecordView>::empty());
        b
    }
}


/// An exact copy of an option.
fn copy_option(o: &PermissionOption) -> (c: PermissionOption)
    ensures
        c@ == o@,
{
    PermissionOption { id: copy_string(&o.id), name: copy_string(&o.name), kind: o.kind }
}

/// An exact copy of a list of options.
fn copy_options(v: &Vec<PermissionOption>) -> (c: Vec<PermissionOption>)
    ensures
        c@.map_values(|o: PermissionOption| o@) == v@.map_values(|o: PermissionOption| o@),
{
    let mut c: Vec<PermissionOption> = Vec::new();
    let mut i: usize = 0;
    while i < v.len()
        invariant
            i <= v.len(),
            c@.map_values(|o: PermissionOption| o@) == v@.subrange(0, i as int).map_values(
                |o: PermissionOption| o@,
            ),
        decreases v.len() - i,
    {
        c.push(copy_option(&v[i]));
        assert(v@.subrange(0, i + 1).map_values(|o: PermissionOption| o@) =~= v@.subrange(
            0,
            i as int,
        ).map_values(|o: PermissionOption| o@).push(v@[i as int]@));
        assert(c@.map_values(|o: PermissionOption| o@) =~= v@.subrange(0, i + 1).map_values(
            |o: PermissionOption| o@,
        ));
        i = i + 1;
    }
    assert(v@.subrange(0, v.len() as int) =~= v@);
    c
}

/// An exact copy of a request.
pub fn copy_request(r: &PermissionRequest) -> (c: PermissionRequest)
    ensures
        c@ == r@,
{
    PermissionRequest {
        id: copy_string(&r.id),
        agent_id: copy_string(&r.agent_id),
        session_id: copy_string(&r.session_id),
        run_id: copy_string(&r.run_id),
        request_id: copy_string(&r.request_id),
        tool_call_id: copy_string(&r.tool_call_id),
        category: r.category,
        title: copy_string(&r.title),
        target: copy_opt_string(&r.target),
        options: copy_options(&r.options),
        created_at_ms: r.created_at_ms,
        expires_at_ms: r.expires_at_ms,
    }
}

/// An exact copy of an audit record.
pub fn copy_record(r: &PermissionAuditRecord) -> (c: PermissionAuditRecord)
    ensures
        c@ == r@,
{
    PermissionAuditRecord {
        request: copy_request(&r.request),
        decision: r.decision,
        status: r.status,
        source: r.source,
        selected_option_id: copy_opt_string(&r.selected_option_id),
        resolved_at_ms: r.resolved_at_ms,
    }
}

/// The ID of the first offered option of `kind`.
fn option_id(request: &PermissionRequest, kind: PermissionOptionKind) -> (r: Option<String>)
    ensures
        opt_view(r) == first_option_id(request@.options, kind),
{
    let ghost all = request@.options;
    assert(all.subrange(0, all.len() as int) =~= all);
    let mut i: usize = 0;
    while i < request.options.len()
        invariant
            i <= request.options.len(),
            all == request@.options,
            first_option_id(all, kind) == first_option_id(all.subrange(i as int, all.len() as int), kind),
        decreases request.options.len() - i,
    {
        let ghost rest = all.subrange(i as int, all.len() as int);
        assert(rest.drop_first() =~= all.subrange(i + 1, all.len() as int));
        if request.options[i].kind == kind {
            return Some(copy_string(&request.options[i].id));
        }
        i = i + 1;
    }
    None
}

/// Whether two optional strings hold the same text.
fn opt_eq(a: &Option<String>, b: &Option<String>) -> (r: bool)
    ensures
        r == (opt_view(*a) == opt_view(*b)),
{
    match a {
        Some(x) => match b {
            Some(y) => x.eq(y),
            None => false,
        },
        None => b.is_none(),
    }
}

/// Whether `g` is exactly the grant scope of `r`.
fn grant_matches(g: &GrantKey, r: &PermissionRequest) -> (m: bool)
    ensures
        m == (g@ == grant_of(r@)),
{
    g.session_id == r.session_id && g.category == r.category && g.title == r.title && opt_eq(
        &g.target,
        &r.target,
    )
}

/// The grant scope of a request.
fn grant_key(r: &PermissionRequest) -> (g: GrantKey)
    ensures
        g@ == grant_of(r@),
{
    GrantKey {
        session_id: copy_string(&r.session_id),
        category: r.category,
        title: copy_string(&r.title),
        target: copy_opt_string(&r.target),
    }
}

/// The text form of a permission ID.
fn permission_id(pid: u32, n: u64) -> (s: String)
    ensures
        s@ == permission_id_text(pid, n),
{
    let mut s = owned("permission-");
    let p = string_of(&u64_decimal(pid as u64));
    s.append(p.as_str());
    s.append("-");
    let q = string_of(&u64_decimal(n));
    s.append(q.as_str());
    s
}

proof fn lemma_permission_id_injective(pid: u32, a: u64, b: u64)
    requires
        permission_id_text(pid, a) == permission_id_text(pid, b),
    ensures
        a == b,
{
    let prefix = "permission-"@ + decimal(pid as nat) + "-"@;
    assert(permission_id_text(pid, a) == prefix + decimal(a as nat));
    assert(permission_id_text(pid, b) == prefix + decimal(b as nat));
    assert((prefix + decimal(a as nat)).subrange(prefix.len() as int, (prefix + decimal(a as nat)).len() as int) =~= decimal(a as nat));
    assert((prefix + decimal(b as nat)).subrange(prefix.len() as int, (prefix + decimal(b as nat)).len() as int) =~= decimal(b as nat));
    lemma_decimal_injective(a as nat, b as nat);
}


impl PermissionBroker {
    /// Whether some grant covers exactly the scope of `request`.
    fn has_grant(&self, request: &PermissionRequest) -> (r: bool)
        ensures
            r == self.grants_view().contains(grant_of(request@)),
    {
        let mut i: usize = 0;
        while i < self.grants.len()
            invariant
                i <= self.grants.len(),
                forall|j: int| 0 <= j < i ==> self.grants_view()[j] != grant_of(request@),
            decreases self.grants.len() - i,
        {
            if grant_matches(&self.grants[i], request) {
                assert(self.grants_view()[i as int] == grant_of(request@));
                return true;
            }
            i = i + 1;
        }
        false
    }

    /// The queue position of a request created at `at`.
    fn position_for(&self, at: u64) -> (k: usize)
        requires
            sorted_by_creation(self.pending_view()),
        ensures
            queue_position(self.pending_view(), at, k as int),
    {
        let mut k: usize = 0;
        while k < self.pending.len()
            invariant
                k <= self.pending.len(),
                sorted_by_creation(self.pending_view()),
                forall|i: int| 0 <= i < k ==> self.pending_view()[i].created_at_ms <= at,
            decreases self.pending.len() - k,
        {
            if self.pending[k].created_at_ms > at {
                assert(self.pending_view()[k as int].created_at_ms > at);
                assert forall|i: int| k <= i < self.pending_view().len() implies self.pending_view()[i].created_at_ms > at by {
                    if i > k {
                        assert(self.pending_view()[k as int].created_at_ms <= self.pending_view()[i].created_at_ms);
                    }
                }
                return k;
            }
            k = k + 1;
        }
        k
    }

    /// Registers a request. When a session grant covers exactly its scope and
    /// the agent offers an allow-once option, the request is allowed at once;
    /// otherwise it waits in the queue, ordered by creation time.
    pub fn register(
        &mut self,
        intent: PermissionIntent,
        options: Vec<PermissionOption>,
        now_ms: u64,
    ) -> (t: PermissionTicket)
        requires
            old(self).wf(),
            old(self).next_number() < u64::MAX,
        ensures
            final(self).wf(),
            t.request@ == request_for(
                intent,
                options@.map_values(|o: PermissionOption| o@),
                permission_id_text(old(self).process(), old(self).next_number()),
                now_ms,
                old(self).timeout(),
            ),
            final(self).next_number() == old(self).next_number() + 1,
            final(self).timeout() == old(self).timeout(),
            final(self).process() == old(self).process(),
            final(self).grants_view() == old(self).grants_view(),
            old(self).grants_view().contains(grant_of(t.request@)) && first_option_id(
                t.request@.options,
                PermissionOptionKind::AllowOnce,
            ) is Some ==> {
                &&& t.resolution matches TicketResolution::Immediate(record) && record@ == audit(
                    t.request@,
                    Some(PermissionDecision::AllowSession),
                    PermissionResolutionStatus::Allowed,
                    PermissionResolutionSource::SessionGrant,
                    first_option_id(t.request@.options, PermissionOptionKind::AllowOnce),
                    now_ms,
                )
                &&& final(self).history_view() == old(self).history_view().push(audit(
                    t.request@,
                    Some(PermissionDecision::AllowSession),
                    PermissionResolutionStatus::Allowed,
                    PermissionResolutionSource::SessionGrant,
                    first_option_id(t.request@.options, PermissionOptionKind::AllowOnce),
                    now_ms,
                ))
                &&& final(self).pending_view() == old(self).pending_view()
            },
            !(old(self).grants_view().contains(grant_of(t.request@)) && first_option_id(
                t.request@.options,
                PermissionOptionKind::AllowOnce,
            ) is Some) ==> {
                &&& t.resolution is Pending
                &&& final(self).history_view() == old(self).history_view()
                &&& exists|k: int|
                    queue_position(old(self).pending_view(), now_ms, k)
                        && final(self).pending_view() == old(self).pending_view().insert(
                        k,
                        t.request@,
                    )
            },
    {
        let ghost old_pending = self.pending_view();
        let ghost number = self.next_id;
        let id = permission_id(self.process_id, self.next_id);
        self.next_id = self.next_id + 1;
        let expires_at_ms = if now_ms > u64::MAX - self.timeout_ms {
            u64::MAX
        } else {
            now_ms + self.timeout_ms
        };
        let request = PermissionRequest {
            id,
            agent_id: intent.agent_id,
            session_id: intent.session_id,
            run_id: intent.run_id,
            request_id: intent.request_id,
            tool_call_id: intent.tool_call_id,
            category: intent.category,
            title: intent.title,
            target: intent.target,
            options,
            created_at_ms: now_ms,
            expires_at_ms,
        };
        if self.has_grant(&request) {
            let allow = option_id(&request, PermissionOptionKind::AllowOnce);
            if allow.is_some() {
                let record = PermissionAuditRecord {
                    request: copy_request(&request),
                    decision: Some(PermissionDecision::AllowSession),
                    status: PermissionResolutionStatus::Allowed,
                    source: PermissionResolutionSource::SessionGrant,
                    selected_option_id: allow,
                    resolved_at_ms: now_ms,
                };
                self.history.push(copy_record(&record));
                proof {
                    assert(self.history_view() =~= old(self).history_view().push(record@));
                    assert(self.pending_view() =~= old_pending);
                    assert forall|i: int| 0 <= i < self.pending_view().len() implies issued(
                        self.process_id,
                        self.next_id,
                        #[trigger] self.pending_view()[i].id,
                    ) by {
                        assert(issued(self.process_id, number, old_pending[i].id));
                        let n = choose|n: u64|
                            n < number && old_pending[i].id == permission_id_text(self.process_id, n);
                        assert(n < self.next_id);
                    }
                }
                return PermissionTicket { request, resolution: TicketResolution::Immediate(record) };
            }
        }
        let k = self.position_for(now_ms);
        self.pending.insert(k, copy_request(&request));
        proof {
            let np = self.pending_view();
            assert(np =~= old_pending.insert(k as int, request@));
            let new_id = request@.id;
            assert(new_id == permission_id_text(self.process_id, number));
            assert forall|i: int| 0 <= i < np.len() implies issued(self.process_id, self.next_id, #[trigger] np[i].id) by {
                if i == k {
                    assert(np[i].id == permission_id_text(self.process_id, number));
                } else {
                    let src = if i < k { i } else { i - 1 };
                    assert(np[i] == old_pending[src]);
                    assert(issued(self.process_id, number, old_pending[src].id));
                    let n = choose|n: u64|
                        n < number && old_pending[src].id == permission_id_text(self.process_id, n);
                    assert(n < self.next_id);
                }
            }
            assert forall|i: int| 0 <= i < old_pending.len() implies old_pending[i].id != new_id by {
                assert(issued(self.process_id, number, old_pending[i].id));
                let n = choose|n: u64|
                    n < number && old_pending[i].id == permission_id_text(self.process_id, n);
                if old_pending[i].id == new_id {
                    lemma_permission_id_injective(self.process_id, n, number);
                }
            }
            assert forall|i: int, j: int| 0 <= i < j < np.len() implies np[i].id != np[j].id by {
                if j < k {
                } else if j == k {
                    assert(np[i] == old_pending[i]);
                } else if i == k {
                    assert(np[j] == old_pending[j - 1]);
                } else if i < k {
                    assert(np[j] == old_pending[j - 1]);
                } else {
                    assert(np[i] == old_pending[i - 1]);
                    assert(np[j] == old_pending[j - 1]);
                }
            }
            assert forall|i: int, j: int| 0 <= i < j < np.len() implies np[i].created_at_ms
                <= np[j].created_at_ms by {
                if j < k {
                } else if j == k {
                    assert(np[i] == old_pending[i]);
                } else if i == k {
                    assert(np[j] == old_pending[j - 1]);
                } else if i < k {
                    assert(np[j] == old_pending[j - 1]);
                } else {
                    assert(np[i] == old_pending[i - 1]);
                    assert(np[j] == old_pending[j - 1]);
                }
            }
        }
        PermissionTicket { request, resolution: TicketResolution::Pending }
    }
}


/// The view of an optional borrowed string.
pub open spec fn opt_str_view(o: Option<&str>) -> Option<Seq<char>> {
    match o {
        Some(s) => Some(s@),
        None => None,
    }
}

/// The record of a decision on a pending request that the decision may resolve.
pub open spec fn decided(request: RequestView, decision: PermissionDecision, at: u64) -> RecordView {
    match decision {
        PermissionDecision::Deny => audit(
            request,
            Some(decision),
            PermissionResolutionStatus::Denied,
            PermissionResolutionSource::User,
            first_option_id(request.options, PermissionOptionKind::RejectOnce),
            at,
        ),
        _ => audit(
            request,
            Some(decision),
            PermissionResolutionStatus::Allowed,
            PermissionResolutionSource::User,
            first_option_id(request.options, PermissionOptionKind::AllowOnce),
            at,
        ),
    }
}

/// `options` offers an option of `kind`.
pub open spec fn offers(options: Seq<OptionView>, kind: PermissionOptionKind) -> bool {
    exists|k: int| 0 <= k < options.len() && (#[trigger] options[k]).kind == kind
}

/// `id` belongs to the first option of `kind` that `options` offers.
pub open spec fn first_of_kind(options: Seq<OptionView>, kind: PermissionOptionKind, id: Seq<char>) -> bool {
    exists|k: int|
        0 <= k < options.len() && (#[trigger] options[k]).kind == kind && options[k].id == id
            && forall|j: int| 0 <= j < k ==> (#[trigger] options[j]).kind != kind
}

proof fn lemma_first_option(options: Seq<OptionView>, kind: PermissionOptionKind)
    ensures
        match first_option_id(options, kind) {
            Some(id) => first_of_kind(options, kind, id),
            None => !offers(options, kind),
        },
    decreases options.len(),
{
    if options.len() > 0 {
        let rest = options.drop_first();
        lemma_first_option(rest, kind);
        if options[0].kind == kind {
            assert(first_of_kind(options, kind, options[0].id)) by {
                assert(options[0].kind == kind);
            }
        } else {
            match first_option_id(rest, kind) {
                Some(id) => {
                    let k = choose|k: int|
                        0 <= k < rest.len() && (#[trigger] rest[k]).kind == kind && rest[k].id == id
                            && forall|j: int| 0 <= j < k ==> (#[trigger] rest[j]).kind != kind;
                    assert(options[k + 1] == rest[k]);
                    assert forall|j: int| 0 <= j < k + 1 implies (#[trigger] options[j]).kind != kind by {
                        if j > 0 {
                            assert(options[j] == rest[j - 1]);
                        }
                    }
                },
                None => {
                    assert forall|k: int| 0 <= k < options.len() implies (#[trigger] options[k]).kind
                        != kind by {
                        if k > 0 {
                            assert(options[k] == rest[k - 1]);
                        }
                    }
                },
            }
        }
    }
}

/// What a user's decision selects: allowing, once or for the session,
/// selects the first allow-once option the agent offered and never another
/// kind (so never an allow-always option); denying selects the first
/// reject-once option. No option is selected only when none of that kind
/// was offered. The record carries the decision and the user as its source.
pub proof fn law_decisions_select_the_first_option_of_their_kind(
    request: RequestView,
    decision: PermissionDecision,
    at: u64,
)
    ensures
        decided(request, decision, at).decision == Some(decision),
        decided(request, decision, at).source == PermissionResolutionSource::User,
        decided(request, decision, at).request == request,
        decision != PermissionDecision::Deny ==> {
            &&& decided(request, decision, at).status == PermissionResolutionStatus::Allowed
            &&& match decided(request, decision, at).selected_option_id {
                Some(id) => first_of_kind(request.options, PermissionOptionKind::AllowOnce, id),
                None => !offers(request.options, PermissionOptionKind::AllowOnce),
            }
        },
        decision == PermissionDecision::Deny ==> {
            &&& decided(request, decision, at).status == PermissionResolutionStatus::Denied
            &&& match decided(request, decision, at).selected_option_id {
                Some(id) => first_of_kind(request.options, PermissionOptionKind::RejectOnce, id),
                None => !offers(request.options, PermissionOptionKind::RejectOnce),
            }
        },
{
    lemma_first_option(request.options, PermissionOptionKind::AllowOnce);
    lemma_first_option(request.options, PermissionOptionKind::RejectOnce);
}

/// The grants after a decision: allow-for-session adds the request's exact scope.
pub open spec fn grants_after(g: Seq<GrantView>, request: RequestView, decision: PermissionDecision) -> Seq<
    GrantView,
> {
    if decision == PermissionDecision::AllowSession && !g.contains(grant_of(request)) {
        g.push(grant_of(request))
    } else {
        g
    }
}

/// Why a decision on `request` is refused, if it is.
pub open spec fn refusal(
    request: RequestView,
    session_id: Seq<char>,
    run_id: Seq<char>,
    decision: PermissionDecision,
) -> Option<Seq<char>> {
    if request.session_id != session_id || request.run_id != run_id {
        Some("Permission request provenance does not match"@)
    } else if decision != PermissionDecision::Deny && first_option_id(
        request.options,
        PermissionOptionKind::AllowOnce,
    ) is None {
        Some("The adapter did not offer a safely scoped allow-once option"@)
    } else {
        None
    }
}

impl PermissionBroker {
    /// Two brokers hold the same state.
    pub open spec fn same_as(&self, other: &PermissionBroker) -> bool {
        &&& self.pending_view() == other.pending_view()
        &&& self.grants_view() == other.grants_view()
        &&& self.history_view() == other.history_view()
        &&& self.next_number() == other.next_number()
        &&& self.timeout() == other.timeout()
        &&& self.process() == other.process()
    }

    /// The index of the pending request with ID `id`.
    fn find(&self, id: &str) -> (r: Option<usize>)
        ensures
            match r {
                Some(k) => index_of(self.pending_view(), id@, k as int),
                None => absent(self.pending_view(), id@),
            },
    {
        let mut k: usize = 0;
        while k < self.pending.len()
            invariant
                k <= self.pending.len(),
                forall|i: int| 0 <= i < k ==> self.pending_view()[i].id != id@,
            decreases self.pending.len() - k,
        {
            if str_eq(self.pending[k].id.as_str(), id) {
                return Some(k);
            }
            k = k + 1;
        }
        None
    }

    proof fn lemma_remove_keeps_wf(&self, old_pending: Seq<RequestView>, k: int)
        requires
            0 <= k < old_pending.len(),
            self.pending_view() == old_pending.remove(k),
            sorted_by_creation(old_pending),
            forall|i: int| 0 <= i < old_pending.len() ==> issued(self.process_id, self.next_id, #[trigger] old_pending[i].id),
            forall|i: int, j: int| 0 <= i < j < old_pending.len() ==> old_pending[i].id != old_pending[j].id,
        ensures
            self.wf(),
    {
        let p = self.pending_view();
        assert forall|i: int| 0 <= i < p.len() implies issued(self.process_id, self.next_id, #[trigger] p[i].id) by {
            let src = if i < k { i } else { i + 1 };
            assert(p[i] == old_pending[src]);
            assert(issued(self.process_id, self.next_id, old_pending[src].id));
        }
        assert forall|i: int, j: int| 0 <= i < j < p.len() implies p[i].id != p[j].id && p[i].created_at_ms <= p[j].created_at_ms by {
            if j < k {
            } else if i < k {
                assert(p[j] == old_pending[j + 1]);
            } else {
                assert(p[i] == old_pending[i + 1]);
                assert(p[j] == old_pending[j + 1]);
            }
        }
    }

    /// Resolves one pending request with the user's decision. Allowing needs an
    /// allow-once option from the agent; allow-for-session also records the
    /// request's exact scope as a grant. Stale and mismatched decisions fail and
    /// change nothing.
    pub fn decide(
        &mut self,
        permission_id: &str,
        session_id: &str,
        run_id: &str,
        decision: PermissionDecision,
        now_ms: u64,
    ) -> (r: Result<PermissionAuditRecord, String>)
        requires
            old(self).wf(),
        ensures
            final(self).wf(),
            absent(old(self).pending_view(), permission_id@) ==> {
                &&& r matches Err(message) && message@
                    == "Permission request is no longer pending: "@ + permission_id@
                &&& final(self).same_as(old(self))
            },
            forall|k: int|
                index_of(old(self).pending_view(), permission_id@, k) ==> {
                    let request = old(self).pending_view()[k];
                    match refusal(request, session_id@, run_id@, decision) {
                        Some(reason) => {
                            &&& r matches Err(message) && message@ == reason
                            &&& final(self).same_as(old(self))
                        },
                        None => {
                            &&& r matches Ok(record) && record@ == decided(request, decision, now_ms)
                            &&& final(self).pending_view() == old(self).pending_view().remove(k)
                            &&& final(self).history_view() == old(self).history_view().push(
                                decided(request, decision, now_ms),
                            )
                            &&& final(self).grants_view() == grants_after(
                                old(self).grants_view(),
                                request,
                                decision,
                            )
                            &&& final(self).next_number() == old(self).next_number()
                            &&& final(self).timeout() == old(self).timeout()
                            &&& final(self).process() == old(self).process()
                        },
                    }
                },
    {
        let k = match self.find(permission_id) {
            None => {
                let mut message = owned("Permission request is no longer pending: ");
                message.append(permission_id);
                return Err(message);
            },
            Some(k) => k,
        };
        proof {
            assert forall|j: int| index_of(self.pending_view(), permission_id@, j) implies j == k by {
                if j < k {
                    assert(self.pending_view()[j].id == permission_id@);
                } else if j > k {
                    assert(self.pending_view()[k as int].id == permission_id@);
                }
            }
        }
        if !str_eq(self.pending[k].session_id.as_str(), session_id) || !str_eq(
            self.pending[k].run_id.as_str(),
            run_id,
        ) {
            return Err(owned("Permission request provenance does not match"));
        }
        let selected = match decision {
            PermissionDecision::Deny => option_id(&self.pending[k], PermissionOptionKind::RejectOnce),
            _ => {
                let allow = option_id(&self.pending[k], PermissionOptionKind::AllowOnce);
                if allow.is_none() {
                    return Err(owned("The adapter did not offer a safely scoped allow-once option"));
                }
                allow
            },
        };
        let status = match decision {
            PermissionDecision::Deny => PermissionResolutionStatus::Denied,
            _ => PermissionResolutionStatus::Allowed,
        };
        let ghost old_pending = self.pending_view();
        let request = self.pending.remove(k);
        proof {
            assert(self.pending_view() =~= old_pending.remove(k as int));
            self.lemma_remove_keeps_wf(old_pending, k as int);
        }
        if decision == PermissionDecision::AllowSession {
            if !self.has_grant(&request) {
                self.grants.push(grant_key(&request));
                assert(self.grants_view() =~= old(self).grants_view().push(grant_of(request@)));
            }
        }
        let record = PermissionAuditRecord {
            request,
            decision: Some(decision),
            status,
            source: PermissionResolutionSource::User,
            selected_option_id: selected,
            resolved_at_ms: now_ms,
        };
        self.history.push(copy_record(&record));
        assert(self.history_view() =~= old(self).history_view().push(record@));
        Ok(record)
    }

    /// Resolves a request that nobody answered in time; a request that is no
    /// longer pending is left alone.
    pub fn expire(&mut self, permission_id: &str, now_ms: u64) -> (r: Option<PermissionAuditRecord>)
        requires
            old(self).wf(),
        ensures
            final(self).wf(),
            absent(old(self).pending_view(), permission_id@) ==> r is None && final(self).same_as(
                old(self),
            ),
            forall|k: int|
                index_of(old(self).pending_view(), permission_id@, k) ==> {
                    let request = old(self).pending_view()[k];
                    &&& r matches Some(record) && record@ == timed_out(request, now_ms)
                    &&& final(self).pending_view() == old(self).pending_view().remove(k)
                    &&& final(self).history_view() == old(self).history_view().push(
                        timed_out(request, now_ms),
                    )
                    &&& final(self).grants_view() == old(self).grants_view()
                    &&& final(self).next_number() == old(self).next_number()
                    &&& final(self).timeout() == old(self).timeout()
                    &&& final(self).process() == old(self).process()
                },
    {
        let k = match self.find(permission_id) {
            None => return None,
            Some(k) => k,
        };
        proof {
            assert forall|j: int| index_of(self.pending_view(), permission_id@, j) implies j == k by {
                if j < k {
                    assert(self.pending_view()[j].id == permission_id@);
                } else if j > k {
                    assert(self.pending_view()[k as int].id == permission_id@);
                }
            }
        }
        let ghost old_pending = self.pending_view();
        let request = self.pending.remove(k);
        proof {
            assert(self.pending_view() =~= old_pending.remove(k as int));
            self.lemma_remove_keeps_wf(old_pending, k as int);
        }
        let record = PermissionAuditRecord {
            request,
            decision: None,
            status: PermissionResolutionStatus::TimedOut,
            source: PermissionResolutionSource::Timeout,
            selected_option_id: None,
            resolved_at_ms: now_ms,
        };
        self.history.push(copy_record(&record));
        assert(self.history_view() =~= old(self).history_view().push(record@));
        Some(record)
    }
}


/// Whether a cancellation of `session` (and of `run`, when given) reaches `request`.
fn reaches(request: &PermissionRequest, session: &str, run: Option<&str>) -> (m: bool)
    ensures
        m == cancel_reaches(request@, session@, opt_str_view(run)),
{
    if !str_eq(request.session_id.as_str(), session) {
        return false;
    }
    match run {
        None => true,
        Some(run) => str_eq(request.run_id.as_str(), run),
    }
}

/// Whether a session filter selects `session_id`.
fn selects(filter: Option<&str>, session_id: &String) -> (m: bool)
    ensures
        m == in_scope(opt_str_view(filter), session_id@),
{
    match filter {
        None => true,
        Some(s) => str_eq(session_id.as_str(), s),
    }
}

impl PermissionBroker {
    fn cancel_where(&mut self, session: &str, run: Option<&str>, now_ms: u64) -> (out: Vec<
        PermissionAuditRecord,
    >)
        requires
            old(self).wf(),
        ensures
            final(self).wf(),
            out@.map_values(|r: PermissionAuditRecord| r@) == cancelled_by(
                old(self).pending_view(),
                session@,
                opt_str_view(run),
                now_ms,
            ),
            final(self).pending_view() == kept_after_cancel(
                old(self).pending_view(),
                session@,
                opt_str_view(run),
            ),
            final(self).history_view() == old(self).history_view() + cancelled_by(
                old(self).pending_view(),
                session@,
                opt_str_view(run),
                now_ms,
            ),
            final(self).grants_view() == old(self).grants_view(),
            final(self).next_number() == old(self).next_number(),
            final(self).timeout() == old(self).timeout(),
            final(self).process() == old(self).process(),
    {
        let ghost o = self.pending_view();
        let ghost run_view = opt_str_view(run);
        let ghost n = o.len();
        let mut out: Vec<PermissionAuditRecord> = Vec::new();
        let mut i: usize = 0;
        let ghost mut j: int = 0;
        assert(o.subrange(0, 0) =~= Seq::<RequestView>::empty());
        assert(self.pending_view() =~= kept_after_cancel(o.subrange(0, 0), session@, run_view) + o.subrange(0, n as int));
        assert(out@.map_values(|r: PermissionAuditRecord| r@) =~= Seq::<RecordView>::empty());
        assert(self.history_view() =~= old(self).history_view() + Seq::<RecordView>::empty());
        while i < self.pending.len()
            invariant
                self.wf(),
                0 <= j <= n,
                n == o.len(),
                i == kept_after_cancel(o.subrange(0, j), session@, run_view).len(),
                self.pending_view() == kept_after_cancel(o.subrange(0, j), session@, run_view)
                    + o.subrange(j, n as int),
                out@.map_values(|r: PermissionAuditRecord| r@) == cancelled_by(
                    o.subrange(0, j),
                    session@,
                    run_view,
                    now_ms,
                ),
                self.history_view() == old(self).history_view() + cancelled_by(
                    o.subrange(0, j),
                    session@,
                    run_view,
                    now_ms,
                ),
                self.grants_view() == old(self).grants_view(),
                self.next_id == old(self).next_id,
                self.timeout_ms == old(self).timeout_ms,
                self.process_id == old(self).process_id,
                run_view == opt_str_view(run),
            decreases self.pending.len() - i,
        {
            let ghost kept = kept_after_cancel(o.subrange(0, j), session@, run_view);
            let ghost before = self.pending_view();
            assert(before[i as int] == o[j]);
            assert(o.subrange(0, j + 1).drop_last() =~= o.subrange(0, j));
            assert(o.subrange(0, j + 1).last() == o[j]);
            if reaches(&self.pending[i], session, run) {
                let request = self.pending.remove(i);
                proof {
                    assert(self.pending_view() =~= before.remove(i as int));
                    self.lemma_remove_keeps_wf(before, i as int);
                    assert(self.pending_view() =~= kept + o.subrange(j + 1, n as int));
                }
                let record = PermissionAuditRecord {
                    request,
                    decision: None,
                    status: PermissionResolutionStatus::Cancelled,
                    source: PermissionResolutionSource::Cancellation,
                    selected_option_id: None,
                    resolved_at_ms: now_ms,
                };
                let ghost hist_before = self.history_view();
                assert(record@ == cancelled(o[j], now_ms));
                self.history.push(copy_record(&record));
                assert(self.history_view() =~= hist_before.push(record@));
                out.push(record);
                proof {
                    let prev = cancelled_by(o.subrange(0, j), session@, run_view, now_ms);
                    assert(out@.map_values(|r: PermissionAuditRecord| r@) =~= prev.push(cancelled(o[j], now_ms)));
                    assert(self.history_view() =~= old(self).history_view() + prev.push(cancelled(o[j], now_ms)));
                }
            } else {
                proof {
                    assert(kept_after_cancel(o.subrange(0, j + 1), session@, run_view) == kept.push(o[j]));
                    assert(self.pending_view() =~= kept.push(o[j]) + o.subrange(j + 1, n as int));
                }
                i = i + 1;
            }
            proof {
                j = j + 1;
            }
        }
        proof {
            assert(j == n) by {
                if j < n {
                    assert(self.pending_view().len() == kept_after_cancel(o.subrange(0, j), session@, run_view).len() + (n - j));
                }
            }
            assert(o.subrange(0, n as int) =~= o);
            assert(o.subrange(n as int, n as int) =~= Seq::<RequestView>::empty());
            assert(self.pending_view() =~= kept_after_cancel(o, session@, run_view));
        }
        out
    }

    /// Cancels every pending request of one run, recording each cancellation,
    /// and returns those records.
    pub fn cancel_run(&mut self, session_id: &str, run_id: &str, now_ms: u64) -> (out: Vec<
        PermissionAuditRecord,
    >)
        requires
            old(self).wf(),
        ensures
            final(self).wf(),
            out@.map_values(|r: PermissionAuditRecord| r@) == cancelled_by(
                old(self).pending_view(),
                session_id@,
                Some(run_id@),
                now_ms,
            ),
            final(self).pending_view() == kept_after_cancel(
                old(self).pending_view(),
                session_id@,
                Some(run_id@),
            ),
            final(self).history_view() == old(self).history_view() + cancelled_by(
                old(self).pending_view(),
                session_id@,
                Some(run_id@),
                now_ms,
            ),
            final(self).grants_view() == old(self).grants_view(),
            final(self).next_number() == old(self).next_number(),
            final(self).timeout() == old(self).timeout(),
            final(self).process() == old(self).process(),
    {
        self.cancel_where(session_id, Some(run_id), now_ms)
    }

    /// Ends a session: cancels its pending requests, recording each
    /// cancellation, and deletes its grants. Returns the cancellation records.
    pub fn cancel_session(&mut self, session_id: &str, now_ms: u64) -> (out: Vec<
        PermissionAuditRecord,
    >)
        requires
            old(self).wf(),
        ensures
            final(self).wf(),
            out@.map_values(|r: PermissionAuditRecord| r@) == cancelled_by(
                old(self).pending_view(),
                session_id@,
                None,
                now_ms,
            ),
            final(self).pending_view() == kept_after_cancel(
                old(self).pending_view(),
                session_id@,
                None,
            ),
            final(self).history_view() == old(self).history_view() + cancelled_by(
                old(self).pending_view(),
                session_id@,
                None,
                now_ms,
            ),
            final(self).grants_view() == grants_outside(old(self).grants_view(), session_id@),
            final(self).next_number() == old(self).next_number(),
            final(self).timeout() == old(self).timeout(),
            final(self).process() == old(self).process(),
    {
        let out = self.cancel_where(session_id, None, now_ms);
        let ghost g = self.grants_view();
        let mut kept: Vec<GrantKey> = Vec::new();
        let mut i: usize = 0;
        while i < self.grants.len()
            invariant
                i <= self.grants.len(),
                g == self.grants_view(),
                kept@.map_values(|k: GrantKey| k@) == grants_outside(g.subrange(0, i as int), session_id@),
            decreases self.grants.len() - i,
        {
            assert(g.subrange(0, i + 1).drop_last() =~= g.subrange(0, i as int));
            if !str_eq(self.grants[i].session_id.as_str(), session_id) {
                kept.push(grant_key_copy(&self.grants[i]));
                assert(kept@.map_values(|k: GrantKey| k@) =~= grants_outside(g.subrange(0, i as int), session_id@).push(g[i as int]));
            }
            i = i + 1;
        }
        assert(g.subrange(0, g.len() as int) =~= g);
        self.grants = kept;
        out
    }

    /// The pending requests that the filter selects, oldest first.
    pub fn pending(&self, session_id: Option<&str>) -> (out: Vec<PermissionRequest>)
        ensures
            out@.map_values(|r: PermissionRequest| r@) == requests_in(
                self.pending_view(),
                opt_str_view(session_id),
            ),
    {
        let ghost p = self.pending_view();
        let mut out: Vec<PermissionRequest> = Vec::new();
        let mut i: usize = 0;
        while i < self.pending.len()
            invariant
                i <= self.pending.len(),
                p == self.pending_view(),
                out@.map_values(|r: PermissionRequest| r@) == requests_in(
                    p.subrange(0, i as int),
                    opt_str_view(session_id),
                ),
            decreases self.pending.len() - i,
        {
            assert(p.subrange(0, i + 1).drop_last() =~= p.subrange(0, i as int));
            if selects(session_id, &self.pending[i].session_id) {
                out.push(copy_request(&self.pending[i]));
                assert(out@.map_values(|r: PermissionRequest| r@) =~= requests_in(
                    p.subrange(0, i as int),
                    opt_str_view(session_id),
                ).push(p[i as int]));
            }
            i = i + 1;
        }
        assert(p.subrange(0, p.len() as int) =~= p);
        out
    }

    /// The audit records whose request the filter selects, in resolution order.
    pub fn history(&self, session_id: Option<&str>) -> (out: Vec<PermissionAuditRecord>)
        ensures
            out@.map_values(|r: PermissionAuditRecord| r@) == records_in(
                self.history_view(),
                opt_str_view(session_id),
            ),
    {
        let ghost h = self.history_view();
        let mut out: Vec<PermissionAuditRecord> = Vec::new();
        let mut i: usize = 0;
        while i < self.history.len()
            invariant
                i <= self.history.len(),
                h == self.history_view(),
                out@.map_values(|r: PermissionAuditRecord| r@) == records_in(
                    h.subrange(0, i as int),
                    opt_str_view(session_id),
                ),
            decreases self.history.len() - i,
        {
            assert(h.subrange(0, i + 1).drop_last() =~= h.subrange(0, i as int));
            if selects(session_id, &self.history[i].request.session_id) {
                out.push(copy_record(&self.history[i]));
                assert(out@.map_values(|r: PermissionAuditRecord| r@) =~= records_in(
                    h.subrange(0, i as int),
                    opt_str_view(session_id),
                ).push(h[i as int]));
            }
            i = i + 1;
        }
        assert(h.subrange(0, h.len() as int) =~= h);
        out
    }
}

fn grant_key_copy(g: &GrantKey) -> (c: GrantKey)
    ensures
        c@ == g@,
{
    GrantKey {
        session_id: copy_string(&g.session_id),
        category: g.category,
        title: copy_string(&g.title),
        target: copy_opt_string(&g.target),
    }
}


// ---------------------------------------------------------------------------
// Laws
// ---------------------------------------------------------------------------

/// Allow-once applies to exactly one request: once a decision removes the
/// request with `id` from the queue, no request with that ID is left, so a
/// second decision on it is refused as no longer pending.
pub proof fn law_a_decision_is_single_use(b: PermissionBroker, id: Seq<char>, k: int)
    requires
        b.wf(),
        index_of(b.pending_view(), id, k),
    ensures
        absent(b.pending_view().remove(k), id),
{
    let p = b.pending_view();
    let q = p.remove(k);
    assert forall|i: int| 0 <= i < q.len() implies q[i].id != id by {
        if i < k {
            assert(q[i] == p[i]);
        } else {
            assert(q[i] == p[i + 1]);
            assert(p[k].id != p[i + 1].id);
        }
    }
}

/// Concurrent requests do not overwrite each other: the broker numbers
/// requests, and different numbers give different IDs.
pub proof fn law_request_ids_are_distinct(pid: u32, a: u64, b: u64)
    requires
        a != b,
    ensures
        permission_id_text(pid, a) != permission_id_text(pid, b),
{
    if permission_id_text(pid, a) == permission_id_text(pid, b) {
        lemma_permission_id_injective(pid, a, b);
    }
}

/// Grants end with their session: after the session ends no grant of it is
/// left, and every grant of every other session is kept.
pub proof fn law_grants_do_not_outlive_their_session(g: Seq<GrantView>, session: Seq<char>)
    ensures
        forall|i: int|
            0 <= i < grants_outside(g, session).len() ==> (#[trigger] grants_outside(g, session)[i]).session_id
                != session,
        forall|i: int|
            0 <= i < g.len() && (#[trigger] g[i]).session_id != session ==> grants_outside(
                g,
                session,
            ).contains(g[i]),
    decreases g.len(),
{
    if g.len() > 0 {
        law_grants_do_not_outlive_their_session(g.drop_last(), session);
        let rest = grants_outside(g.drop_last(), session);
        assert forall|i: int| 0 <= i < g.len() && (#[trigger] g[i]).session_id != session implies grants_outside(
            g,
            session,
        ).contains(g[i]) by {
            if i < g.len() - 1 {
                assert(g.drop_last()[i] == g[i]);
                let j = choose|j: int| 0 <= j < rest.len() && rest[j] == g[i];
                if g.last().session_id != session {
                    assert(grants_outside(g, session)[j] == g[i]);
                }
            } else {
                assert(grants_outside(g, session).last() == g[i]);
            }
        }
    }
}

/// Cancellation is complete and precise: no request it reaches stays pending,
/// every request it does not reach stays pending, and it resolves each request
/// it reaches with the safe default (cancelled, no option selected).
pub proof fn law_cancellation_resolves_exactly_its_scope(
    s: Seq<RequestView>,
    session: Seq<char>,
    run: Option<Seq<char>>,
    at: u64,
)
    ensures
        forall|i: int|
            0 <= i < kept_after_cancel(s, session, run).len() ==> !cancel_reaches(
                #[trigger] kept_after_cancel(s, session, run)[i],
                session,
                run,
            ),
        forall|i: int|
            0 <= i < s.len() && !cancel_reaches(#[trigger] s[i], session, run) ==> kept_after_cancel(
                s,
                session,
                run,
            ).contains(s[i]),
        forall|i: int|
            0 <= i < cancelled_by(s, session, run, at).len() ==> {
                let r = #[trigger] cancelled_by(s, session, run, at)[i];
                &&& cancel_reaches(r.request, session, run)
                &&& r.status == PermissionResolutionStatus::Cancelled
                &&& r.selected_option_id is None
            },
        kept_after_cancel(s, session, run).len() + cancelled_by(s, session, run, at).len() == s.len(),
    decreases s.len(),
{
    if s.len() > 0 {
        law_cancellation_resolves_exactly_its_scope(s.drop_last(), session, run, at);
        let rest = kept_after_cancel(s.drop_last(), session, run);
        assert forall|i: int| 0 <= i < s.len() && !cancel_reaches(#[trigger] s[i], session, run) implies kept_after_cancel(
            s,
            session,
            run,
        ).contains(s[i]) by {
            if i < s.len() - 1 {
                assert(s.drop_last()[i] == s[i]);
                let j = choose|j: int| 0 <= j < rest.len() && rest[j] == s[i];
                if !cancel_reaches(s.last(), session, run) {
                    assert(kept_after_cancel(s, session, run)[j] == s[i]);
                }
            } else {
                assert(kept_after_cancel(s, session, run).last() == s[i]);
            }
        }
    }
}

/// The queue that `pending` reports is ordered by creation time, whatever the
/// session filter.
pub proof fn law_pending_requests_come_oldest_first(b: PermissionBroker, filter: Option<Seq<char>>)
    requires
        b.wf(),
    ensures
        sorted_by_creation(requests_in(b.pending_view(), filter)),
{
    lemma_filter_keeps_order(b.pending_view(), filter);
}

proof fn lemma_filter_keeps_order(s: Seq<RequestView>, filter: Option<Seq<char>>)
    requires
        sorted_by_creation(s),
    ensures
        sorted_by_creation(requests_in(s, filter)),
        forall|i: int|
            0 <= i < requests_in(s, filter).len() ==> s.contains(#[trigger] requests_in(s, filter)[i]),
    decreases s.len(),
{
    if s.len() > 0 {
        let d = s.drop_last();
        assert(sorted_by_creation(d));
        lemma_filter_keeps_order(d, filter);
        let r = requests_in(d, filter);
        assert forall|i: int| 0 <= i < r.len() implies s.contains(#[trigger] r[i]) by {
            let j = choose|j: int| 0 <= j < d.len() && d[j] == r[i];
            assert(s[j] == r[i]);
        }
        if in_scope(filter, s.last().session_id) {
            let t = r.push(s.last());
            assert forall|i: int, j: int| 0 <= i < j < t.len() implies t[i].created_at_ms
                <= t[j].created_at_ms by {
                if j == t.len() - 1 {
                    let m = choose|m: int| 0 <= m < d.len() && d[m] == r[i];
                    assert(s[m] == t[i]);
                }
            }
            assert forall|i: int| 0 <= i < t.len() implies s.contains(#[trigger] t[i]) by {
                if i < r.len() {
                    assert(t[i] == r[i]);
                } else {
                    assert(s[s.len() - 1] == t[i]);
                }
            }
        }
    }
}

} // verus!
