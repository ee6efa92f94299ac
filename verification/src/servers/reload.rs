//! Taking up changed settings while the server runs.

use vstd::prelude::*;

use crate::configs::resolve::{Resolved, ResolvedView};
use crate::paths::{is_same_path, same_path};
use crate::servers::history::{is_group, lemma_recorded_is_there};
use crate::servers::info::{recorded, IssueGroupView, IssueKind, OccurrenceView, Stats};
use crate::servers::startup::{bind_text, format_bind_addr};
use crate::text::{copy_option, same_option};

verus! {

// ---------------------------------------------------------------------------
// Watching
// ---------------------------------------------------------------------------

/// When the two configuration files were changed last, as far as that was seen.
/// Times are nanoseconds since 1970.
#[derive(Debug)]
pub struct ReloadWatch {
    /// The global file, if it was there.
    pub global_mtime: Option<i128>,
    /// The file of the project, if it was there.
    pub project_mtime: Option<i128>,
}

impl ReloadWatch {
    /// A watch over two files.
    pub fn new(global_mtime: Option<i128>, project_mtime: Option<i128>) -> (r: ReloadWatch)
        ensures
            r.global_mtime == global_mtime,
            r.project_mtime == project_mtime,
    {
        ReloadWatch { global_mtime, project_mtime }
    }

    /// Whether one of the files changed since it was seen last, and sees both.
    pub fn changed(&mut self, global_mtime: Option<i128>, project_mtime: Option<i128>) -> (r: bool)
        ensures
            r == (old(self).global_mtime != global_mtime || old(self).project_mtime
                != project_mtime),
            final(self).global_mtime == global_mtime,
            final(self).project_mtime == project_mtime,
    {
        let same = same_time(self.global_mtime, global_mtime) && same_time(
            self.project_mtime,
            project_mtime,
        );
        self.global_mtime = global_mtime;
        self.project_mtime = project_mtime;
        !same
    }
}

fn same_time(a: Option<i128>, b: Option<i128>) -> (r: bool)
    ensures
        r == (a == b),
{
    match (a, b) {
        (Some(x), Some(y)) => x == y,
        (None, None) => true,
        _ => false,
    }
}

// ---------------------------------------------------------------------------
// Differences
// ---------------------------------------------------------------------------

/// Whether settings differ in what the listener depends on. The name matters
/// with TLS alone.
pub open spec fn rebinds(old: ResolvedView, new: ResolvedView) -> bool {
    old.listen != new.listen || old.port != new.port || old.tls_enabled != new.tls_enabled || (
    new.tls_enabled && old.fqdn != new.fqdn)
}

/// Whether settings differ in what the listener depends on.
pub fn config_needs_listener_rebind(was: &Resolved, new: &Resolved) -> (r: bool)
    ensures
        r == rebinds(was@, new@),
{
    !was.listen.as_str().eq(new.listen.as_str()) || was.port != new.port || was.tls_enabled
        != new.tls_enabled || (new.tls_enabled && !same_option(&was.fqdn, &new.fqdn))
}

/// Whether settings differ in what the development server depends on.
pub open spec fn restarts(old: ResolvedView, new: ResolvedView) -> bool {
    old.proxy != new.proxy
}

fn same_flag(a: Option<bool>, b: Option<bool>) -> (r: bool)
    ensures
        r == (a == b),
{
    match (a, b) {
        (Some(x), Some(y)) => x == y,
        (None, None) => true,
        _ => false,
    }
}

/// Whether settings differ in what the development server depends on.
pub fn config_needs_proxy_restart(was: &Resolved, new: &Resolved) -> (r: bool)
    ensures
        r == restarts(was@, new@),
{
    let a = &was.proxy;
    let b = &new.proxy;
    !(same_flag(a.enabled, b.enabled) && same_option(&a.kind, &b.kind) && same_option(
        &a.command,
        &b.command,
    ) && same_option(&a.upstream, &b.upstream) && same_option(&a.path_prefix, &b.path_prefix))
}

/// Whether settings differ in what the logs depend on.
pub open spec fn reopens(old: ResolvedView, new: ResolvedView) -> bool {
    !same_path(old.log_dir, new.log_dir) || old.logging_access_rotate != new.logging_access_rotate
        || old.logging_access_keep != new.logging_access_keep || old.logging_error_rotate
        != new.logging_error_rotate || old.logging_error_keep != new.logging_error_keep
}

/// Whether settings differ in what the logs depend on.
pub fn config_needs_logger_reopen(was: &Resolved, new: &Resolved) -> (r: bool)
    ensures
        r == reopens(was@, new@),
{
    !is_same_path(was.log_dir.as_str(), new.log_dir.as_str())
        || !was.logging_access_rotate.as_str().eq(new.logging_access_rotate.as_str())
        || !was.logging_access_keep.as_str().eq(new.logging_access_keep.as_str())
        || !was.logging_error_rotate.as_str().eq(new.logging_error_rotate.as_str())
        || !was.logging_error_keep.as_str().eq(new.logging_error_keep.as_str())
}

/// Settings that are the same need nothing.
pub proof fn nothing_to_do_for_the_same(o: ResolvedView)
    ensures
        !rebinds(o, o),
        !restarts(o, o),
        !reopens(o, o),
{
}

/// Settings that differ in nothing but what is looked up for each request need
/// nothing.
pub proof fn some_settings_apply_at_once(old: ResolvedView, new: ResolvedView)
    requires
        new == (ResolvedView {
            debug: new.debug,
            directory_listing: new.directory_listing,
            mime_types: new.mime_types,
            script_handlers: new.script_handlers,
            ssi_extensions: new.ssi_extensions,
            security_headers: new.security_headers,
            cors: new.cors,
            ..old
        }),
    ensures
        !rebinds(old, new),
        !restarts(old, new),
        !reopens(old, new),
{
}

// ---------------------------------------------------------------------------
// Reloading
// ---------------------------------------------------------------------------

/// A reload that is under way.
pub struct Reload {
    /// The settings that come out of it.
    pub opts: Resolved,
    /// What could not be taken up.
    pub warnings: Vec<String>,
    /// Whether the listener was bound anew.
    pub rebound: bool,
}

/// A reload that is under way.
pub struct ReloadView {
    pub opts: ResolvedView,
    pub warnings: Seq<Seq<char>>,
    pub rebound: bool,
}

impl View for Reload {
    type V = ReloadView;

    open spec fn view(&self) -> ReloadView {
        ReloadView {
            opts: self.opts@,
            warnings: self.warnings.deep_view(),
            rebound: self.rebound,
        }
    }
}

/// What is said of a directory that cannot change.
pub open spec fn dir_warning(old: Seq<char>, new: Seq<char>) -> Seq<char> {
    "base_dir change from "@ + old + " to "@ + new
        + " cannot be applied live (requires a restart); keeping the running base_dir"@
}

/// What is said of a listener that could not be bound.
pub open spec fn bind_warning(new: ResolvedView, error: Seq<char>) -> Seq<char> {
    "listener rebind to "@ + bind_text(new.listen, new.port) + " (tls="@ + (if new.tls_enabled {
        "true"@
    } else {
        "false"@
    }) + ") failed: "@ + error + "; still serving on the previous bind"@
}

/// What is said of a development server that could not be started.
pub open spec fn spawn_warning(kind: Seq<char>, command: Seq<char>, error: Seq<char>) -> Seq<char> {
    "failed to restart framework dev-server ("@ + kind + ": "@ + command + "): "@ + error
}

/// What is said of files that cannot be read.
pub open spec fn load_warning(error: Seq<char>) -> Seq<char> {
    "config reload failed: "@ + error + "; keeping previous configuration"@
}

/// What is said of files that cannot be read.
pub fn reload_failure(error: &str) -> (r: String)
    ensures
        r@ == load_warning(error@),
{
    let mut out = "config reload failed: ".to_owned();
    out.append(error);
    out.append("; keeping previous configuration");
    out
}

/// Adds a warning.
fn warn(list: &mut Vec<String>, text: String)
    ensures
        final(list).deep_view() == old(list).deep_view().push(text@),
{
    let ghost before = list.deep_view();
    list.push(text);
    assert(list.deep_view() =~= before.push(text@));
}

/// The settings of a reload before anything was done: the served directory
/// cannot change.
pub open spec fn kept_dir(old: ResolvedView, new: ResolvedView) -> ResolvedView {
    if same_path(new.base_dir, old.base_dir) {
        new
    } else {
        ResolvedView { base_dir: old.base_dir, ..new }
    }
}

/// The settings of a reload after the listener could not be bound: it stays as
/// it was.
pub open spec fn kept_listener(old: ResolvedView, new: ResolvedView) -> ResolvedView {
    ResolvedView {
        listen: old.listen,
        port: old.port,
        tls_enabled: old.tls_enabled,
        fqdn: old.fqdn,
        ..new
    }
}

/// A reload from the running settings to new ones, before anything was done.
pub open spec fn begun(current: ResolvedView, loaded: ResolvedView) -> ReloadView {
    ReloadView {
        opts: kept_dir(current, loaded),
        warnings: if same_path(loaded.base_dir, current.base_dir) {
            Seq::empty()
        } else {
            seq![dir_warning(current.base_dir, loaded.base_dir)]
        },
        rebound: false,
    }
}

/// A reload after the listener could not be bound.
pub open spec fn unbound(current: ResolvedView, r: ReloadView, error: Seq<char>) -> ReloadView {
    ReloadView {
        opts: kept_listener(current, r.opts),
        warnings: r.warnings.push(bind_warning(r.opts, error)),
        ..r
    }
}

/// A reload after the development server could not be started.
pub open spec fn unspawned(
    r: ReloadView,
    kind: Seq<char>,
    command: Seq<char>,
    error: Seq<char>,
) -> ReloadView {
    ReloadView { warnings: r.warnings.push(spawn_warning(kind, command, error)), ..r }
}

impl Reload {
    /// Starts a reload from the running settings to new ones.
    pub fn begin(current: &Resolved, loaded: Resolved) -> (r: Reload)
        ensures
            r@ == begun(current@, loaded@),
    {
        let mut warnings: Vec<String> = Vec::new();
        assert(warnings.deep_view() =~= Seq::<Seq<char>>::empty());
        let mut opts = loaded;
        if !is_same_path(opts.base_dir.as_str(), current.base_dir.as_str()) {
            let mut text = "base_dir change from ".to_owned();
            text.append(current.base_dir.as_str());
            text.append(" to ");
            text.append(opts.base_dir.as_str());
            text.append(" cannot be applied live (requires a restart); keeping the running base_dir");
            warn(&mut warnings, text);
            assert(warnings.deep_view() =~= seq![dir_warning(
                current@.base_dir,
                loaded@.base_dir,
            )]);
            opts.base_dir = current.base_dir.clone();
        }
        Reload { opts, warnings, rebound: false }
    }

    /// Whether the listener has to be bound anew.
    pub fn needs_rebind(&self, current: &Resolved) -> (r: bool)
        ensures
            r == rebinds(current@, self.opts@),
    {
        config_needs_listener_rebind(current, &self.opts)
    }

    /// Notes that the listener was bound anew.
    pub fn bound(&mut self)
        ensures
            final(self)@ == (ReloadView { rebound: true, ..old(self)@ }),
    {
        self.rebound = true;
    }

    /// Notes that the listener could not be bound: it stays as it was.
    pub fn bind_failed(&mut self, current: &Resolved, error: &str)
        ensures
            final(self)@ == unbound(current@, old(self)@, error@),
    {
        let mut text = "listener rebind to ".to_owned();
        text.append(format_bind_addr(self.opts.listen.as_str(), self.opts.port).as_str());
        text.append(" (tls=");
        text.append(
            if self.opts.tls_enabled {
                "true"
            } else {
                "false"
            },
        );
        text.append(") failed: ");
        text.append(error);
        text.append("; still serving on the previous bind");
        warn(&mut self.warnings, text);
        self.opts.listen = current.listen.clone();
        self.opts.port = current.port;
        self.opts.tls_enabled = current.tls_enabled;
        self.opts.fqdn = copy_option(&current.fqdn);
    }

    /// Notes that the development server could not be started.
    pub fn spawn_failed(&mut self, kind: &str, command: &str, error: &str)
        ensures
            final(self)@ == unspawned(old(self)@, kind@, command@, error@),
    {
        let mut text = "failed to restart framework dev-server (".to_owned();
        text.append(kind);
        text.append(": ");
        text.append(command);
        text.append("): ");
        text.append(error);
        warn(&mut self.warnings, text);
    }

    /// What is logged of the reload, besides its warnings.
    pub fn message(&self) -> (r: String)
        ensures
            r@ == (if self.rebound {
                "config reload applied (listener rebound)"@
            } else {
                "config reload applied"@
            }),
    {
        if self.rebound {
            "config reload applied (listener rebound)".to_owned()
        } else {
            "config reload applied".to_owned()
        }
    }
}

/// What is logged of a warning.
pub fn warning_message(warning: &str) -> (r: String)
    ensures
        r@ == "config reload warning: "@ + warning@,
{
    let mut out = "config reload warning: ".to_owned();
    out.append(warning);
    out
}

/// A problem with a reload, as it is recorded at a moment.
pub open spec fn reload_occurrence(now: u64) -> OccurrenceView {
    OccurrenceView {
        unix_secs: now,
        method: "RELOAD"@,
        path: "/"@,
        target: "-"@,
        status: 0,
        referer: None,
    }
}

/// The recorded problems after each of some warnings of a reload was recorded.
pub open spec fn with_warnings(
    g: Seq<IssueGroupView>,
    warnings: Seq<Seq<char>>,
    now: u64,
) -> Seq<IssueGroupView>
    decreases warnings.len(),
{
    if warnings.len() == 0 {
        g
    } else {
        recorded(
            with_warnings(g, warnings.drop_last(), now),
            IssueKind::ConfigReloadIssue,
            "/"@,
            warnings.last(),
            reload_occurrence(now),
        )
    }
}

/// Records a warning of a reload.
pub fn record_warning(stats: &mut Stats, warning: &str, now: u64)
    ensures
        *final(stats) == (Stats { issues: final(stats).issues, ..*old(stats) }),
        final(stats).issues.groups.deep_view() == with_warnings(
            old(stats).issues.groups.deep_view(),
            seq![warning@],
            now,
        ),
{
    let ghost g = stats.issues.groups.deep_view();
    stats.record_issue(IssueKind::ConfigReloadIssue, "/", warning, "RELOAD", "-", 0, None, now);
    assert(seq![warning@].drop_last() =~= Seq::<Seq<char>>::empty());
    assert(with_warnings(g, Seq::<Seq<char>>::empty(), now) == g);
}

impl Reload {
    /// Records every warning.
    pub fn record(&self, stats: &mut Stats, now: u64)
        ensures
            *final(stats) == (Stats { issues: final(stats).issues, ..*old(stats) }),
            final(stats).issues.groups.deep_view() == with_warnings(
                old(stats).issues.groups.deep_view(),
                self@.warnings,
                now,
            ),
    {
        let ghost g = stats.issues.groups.deep_view();
        let ghost w = self@.warnings;
        let n: usize = self.warnings.len();
        let mut i: usize = 0;
        assert(w.take(0) =~= Seq::<Seq<char>>::empty());
        while i < n
            invariant
                i <= n,
                n == self.warnings@.len(),
                w == self.warnings.deep_view(),
                *stats == (Stats { issues: stats.issues, ..*old(stats) }),
                stats.issues.groups.deep_view() == with_warnings(g, w.take(i as int), now),
            decreases n - i,
        {
            let ghost one = seq![w[i as int]];
            assert(one.drop_last() =~= Seq::<Seq<char>>::empty());
            assert(w.take(i + 1).drop_last() =~= w.take(i as int));
            assert(w[i as int] == self.warnings@[i as int]@);
            let ghost before = stats.issues.groups.deep_view();
            assert(with_warnings(before, Seq::<Seq<char>>::empty(), now) == before);
            record_warning(stats, self.warnings[i].as_str(), now);
            i = i + 1;
        }
        assert(w.take(n as int) =~= w);
    }
}

// ---------------------------------------------------------------------------
// The order of a reload
// ---------------------------------------------------------------------------

/// What is to be done next for a reload. The running settings stay in force until
/// they are swapped.
pub enum ReloadStep {
    /// The files are read.
    Load,
    /// Nothing but this message is logged and recorded: the files cannot be read.
    Refuse(String),
    /// The listener is bound anew.
    Bind(Reload),
    /// The development server is stopped.
    StopChild(Reload),
    /// The development server of the new settings is started, if there is one.
    StartChild(Reload),
    /// The logs are opened anew.
    ReopenLogs(Reload),
    /// The new settings are put in the place of the running ones.
    Swap(Reload),
    /// What was done, and every warning, is logged, and the warnings are recorded.
    Report(Reload),
    /// Nothing is left to do.
    Done,
}

/// What is to be done next for a reload.
pub enum ReloadStepView {
    Load,
    Refuse(Seq<char>),
    Bind(ReloadView),
    StopChild(ReloadView),
    StartChild(ReloadView),
    ReopenLogs(ReloadView),
    Swap(ReloadView),
    Report(ReloadView),
    Done,
}

impl View for ReloadStep {
    type V = ReloadStepView;

    open spec fn view(&self) -> ReloadStepView {
        match self {
            ReloadStep::Load => ReloadStepView::Load,
            ReloadStep::Refuse(m) => ReloadStepView::Refuse(m@),
            ReloadStep::Bind(r) => ReloadStepView::Bind(r@),
            ReloadStep::StopChild(r) => ReloadStepView::StopChild(r@),
            ReloadStep::StartChild(r) => ReloadStepView::StartChild(r@),
            ReloadStep::ReopenLogs(r) => ReloadStepView::ReopenLogs(r@),
            ReloadStep::Swap(r) => ReloadStepView::Swap(r@),
            ReloadStep::Report(r) => ReloadStepView::Report(r@),
            ReloadStep::Done => ReloadStepView::Done,
        }
    }
}

/// How a step of a reload turned out.
pub enum ReloadEvent {
    /// The step is done.
    Finished,
    /// The files hold these settings.
    Loaded(Resolved),
    /// The files cannot be read, or the listener cannot be bound.
    Failed(String),
    /// The development server of this kind and with this command cannot be started.
    NotStarted(String, String, String),
}

/// How a step of a reload turned out.
pub enum ReloadEventView {
    Finished,
    Loaded(ResolvedView),
    Failed(Seq<char>),
    NotStarted(Seq<char>, Seq<char>, Seq<char>),
}

impl View for ReloadEvent {
    type V = ReloadEventView;

    open spec fn view(&self) -> ReloadEventView {
        match self {
            ReloadEvent::Finished => ReloadEventView::Finished,
            ReloadEvent::Loaded(o) => ReloadEventView::Loaded(o@),
            ReloadEvent::Failed(e) => ReloadEventView::Failed(e@),
            ReloadEvent::NotStarted(k, c, e) => ReloadEventView::NotStarted(k@, c@, e@),
        }
    }
}

/// What comes once the development server is as the settings ask.
pub open spec fn after_child(current: ResolvedView, r: ReloadView) -> ReloadStepView {
    if reopens(current, r.opts) {
        ReloadStepView::ReopenLogs(r)
    } else {
        ReloadStepView::Swap(r)
    }
}

/// What comes once the listener is as the settings ask.
pub open spec fn after_listener(current: ResolvedView, r: ReloadView) -> ReloadStepView {
    if restarts(current, r.opts) {
        ReloadStepView::StopChild(r)
    } else {
        after_child(current, r)
    }
}

/// What comes after a step of a reload, from the running settings. What cannot
/// happen at a step changes nothing.
pub open spec fn reload_after(
    current: ResolvedView,
    s: ReloadStepView,
    e: ReloadEventView,
) -> ReloadStepView {
    match (s, e) {
        (ReloadStepView::Load, ReloadEventView::Loaded(loaded)) => {
            let r = begun(current, loaded);
            if rebinds(current, r.opts) {
                ReloadStepView::Bind(r)
            } else {
                after_listener(current, r)
            }
        },
        (ReloadStepView::Load, ReloadEventView::Failed(error)) => ReloadStepView::Refuse(
            load_warning(error),
        ),
        (ReloadStepView::Refuse(_), ReloadEventView::Finished) => ReloadStepView::Done,
        (ReloadStepView::Bind(r), ReloadEventView::Finished) => after_listener(
            current,
            ReloadView { rebound: true, ..r },
        ),
        (ReloadStepView::Bind(r), ReloadEventView::Failed(error)) => after_listener(
            current,
            unbound(current, r, error),
        ),
        (ReloadStepView::StopChild(r), ReloadEventView::Finished) => ReloadStepView::StartChild(r),
        (ReloadStepView::StartChild(r), ReloadEventView::Finished) => after_child(current, r),
        (
            ReloadStepView::StartChild(r),
            ReloadEventView::NotStarted(kind, command, error),
        ) => after_child(current, unspawned(r, kind, command, error)),
        (ReloadStepView::ReopenLogs(r), ReloadEventView::Finished) => ReloadStepView::Swap(r),
        (ReloadStepView::Swap(r), ReloadEventView::Finished) => ReloadStepView::Report(r),
        (ReloadStepView::Report(_), ReloadEventView::Finished) => ReloadStepView::Done,
        _ => s,
    }
}

fn child_done(current: &Resolved, r: Reload) -> (s: ReloadStep)
    ensures
        s@ == after_child(current@, r@),
{
    if config_needs_logger_reopen(current, &r.opts) {
        ReloadStep::ReopenLogs(r)
    } else {
        ReloadStep::Swap(r)
    }
}

fn listener_done(current: &Resolved, r: Reload) -> (s: ReloadStep)
    ensures
        s@ == after_listener(current@, r@),
{
    if config_needs_proxy_restart(current, &r.opts) {
        ReloadStep::StopChild(r)
    } else {
        child_done(current, r)
    }
}

impl ReloadStep {
    /// What comes after this step, given the running settings and how it turned out.
    pub fn after(self, current: &Resolved, event: ReloadEvent) -> (r: ReloadStep)
        ensures
            r@ == reload_after(current@, self@, event@),
    {
        match (self, event) {
            (ReloadStep::Load, ReloadEvent::Loaded(loaded)) => {
                let r = Reload::begin(current, loaded);
                if r.needs_rebind(current) {
                    ReloadStep::Bind(r)
                } else {
                    listener_done(current, r)
                }
            },
            (ReloadStep::Load, ReloadEvent::Failed(error)) => ReloadStep::Refuse(
                reload_failure(error.as_str()),
            ),
            (ReloadStep::Refuse(_), ReloadEvent::Finished) => ReloadStep::Done,
            (ReloadStep::Bind(r), ReloadEvent::Finished) => {
                let mut r = r;
                r.bound();
                listener_done(current, r)
            },
            (ReloadStep::Bind(r), ReloadEvent::Failed(error)) => {
                let mut r = r;
                r.bind_failed(current, error.as_str());
                listener_done(current, r)
            },
            (ReloadStep::StopChild(r), ReloadEvent::Finished) => ReloadStep::StartChild(r),
            (ReloadStep::StartChild(r), ReloadEvent::Finished) => child_done(current, r),
            (ReloadStep::StartChild(r), ReloadEvent::NotStarted(kind, command, error)) => {
                let mut r = r;
                r.spawn_failed(kind.as_str(), command.as_str(), error.as_str());
                child_done(current, r)
            },
            (ReloadStep::ReopenLogs(r), ReloadEvent::Finished) => ReloadStep::Swap(r),
            (ReloadStep::Swap(r), ReloadEvent::Finished) => ReloadStep::Report(r),
            (ReloadStep::Report(_), ReloadEvent::Finished) => ReloadStep::Done,
            (s, _) => s,
        }
    }
}

/// The warnings that are recorded at a step.
pub open spec fn reported(s: ReloadStepView) -> Seq<Seq<char>> {
    match s {
        ReloadStepView::Refuse(m) => seq![m],
        ReloadStepView::Report(r) => r.warnings,
        _ => Seq::empty(),
    }
}

impl ReloadStep {
    /// Records what is to be recorded at this step.
    pub fn record(&self, stats: &mut Stats, now: u64)
        ensures
            *final(stats) == (Stats { issues: final(stats).issues, ..*old(stats) }),
            final(stats).issues.groups.deep_view() == with_warnings(
                old(stats).issues.groups.deep_view(),
                reported(self@),
                now,
            ),
    {
        match self {
            ReloadStep::Refuse(m) => record_warning(stats, m.as_str(), now),
            ReloadStep::Report(r) => r.record(stats, now),
            _ => (),
        }
    }
}

/// What is to be done after some events, from the beginning of a reload on.
pub open spec fn reload_course(current: ResolvedView, events: Seq<ReloadEventView>) -> ReloadStepView
    decreases events.len(),
{
    if events.len() == 0 {
        ReloadStepView::Load
    } else {
        reload_after(current, reload_course(current, events.drop_last()), events.last())
    }
}

/// The reload that a step is about, if it is about one.
pub open spec fn carried(s: ReloadStepView) -> Option<ReloadView> {
    match s {
        ReloadStepView::Bind(r) => Some(r),
        ReloadStepView::StopChild(r) => Some(r),
        ReloadStepView::StartChild(r) => Some(r),
        ReloadStepView::ReopenLogs(r) => Some(r),
        ReloadStepView::Swap(r) => Some(r),
        ReloadStepView::Report(r) => Some(r),
        _ => None,
    }
}

/// How many steps are left at most.
pub open spec fn reload_steps_left(s: ReloadStepView) -> int {
    match s {
        ReloadStepView::Load => 8,
        ReloadStepView::Bind(_) => 7,
        ReloadStepView::StopChild(_) => 6,
        ReloadStepView::StartChild(_) => 5,
        ReloadStepView::ReopenLogs(_) => 4,
        ReloadStepView::Swap(_) => 3,
        ReloadStepView::Report(_) => 2,
        ReloadStepView::Refuse(_) => 1,
        ReloadStepView::Done => 0,
    }
}

// ---------------------------------------------------------------------------
// Laws
// ---------------------------------------------------------------------------

/// Where the files cannot be read, nothing is done but telling so: the listener,
/// the development server, the logs and the running settings stay as they are,
/// whatever happens afterwards.
pub proof fn failed_loads_change_nothing(
    current: ResolvedView,
    error: Seq<char>,
    events: Seq<ReloadEventView>,
)
    requires
        events.len() > 0,
        events[0] == ReloadEventView::Failed(error),
    ensures
        reload_course(current, events) == ReloadStepView::Refuse(load_warning(error))
            || reload_course(current, events) == ReloadStepView::Done,
        carried(reload_course(current, events)) is None,
    decreases events.len(),
{
    if events.len() == 1 {
        assert(events.drop_last() =~= Seq::<ReloadEventView>::empty());
        assert(reload_course(current, events.drop_last()) == ReloadStepView::Load);
    } else {
        assert(events.drop_last()[0] == events[0]);
        failed_loads_change_nothing(current, error, events.drop_last());
    }
}

/// No warning of a reload is lost on the way, and a reload is done only once its
/// warnings, or the reason why there was none, were reported.
pub proof fn warnings_reach_the_report(
    current: ResolvedView,
    s: ReloadStepView,
    e: ReloadEventView,
)
    ensures
        carried(s) is Some && carried(reload_after(current, s, e)) is Some ==> carried(
            s,
        )->0.warnings.is_prefix_of(carried(reload_after(current, s, e))->0.warnings),
        reload_after(current, s, e) is Done ==> s is Report || s is Refuse || s is Done,
        s is Bind && e is Failed ==> carried(
            reload_after(current, s, e),
        )->0.warnings.contains(bind_warning(s->Bind_0.opts, e->Failed_0)),
        s is StartChild && e is NotStarted ==> carried(
            reload_after(current, s, e),
        )->0.warnings.contains(
            spawn_warning(e->NotStarted_0, e->NotStarted_1, e->NotStarted_2),
        ),
        s is Load && e is Loaded && !same_path(e->Loaded_0.base_dir, current.base_dir) ==> carried(
            reload_after(current, s, e),
        )->0.warnings.contains(dir_warning(current.base_dir, e->Loaded_0.base_dir)),
{
    let t = reload_after(current, s, e);
    if carried(t) is Some {
        let w = carried(t)->0.warnings;
        if w.len() > 0 {
            assert(w.contains(w[w.len() - 1]));
        }
    }
}

/// Every warning that is recorded is a problem with a reload among the recorded
/// ones, as soon as it was recorded.
pub proof fn warnings_become_issues(
    g: Seq<IssueGroupView>,
    warnings: Seq<Seq<char>>,
    now: u64,
    i: int,
)
    requires
        0 <= i < warnings.len(),
    ensures
        exists|j: int|
            0 <= j < with_warnings(g, warnings.take(i + 1), now).len() && is_group(
                #[trigger] with_warnings(g, warnings.take(i + 1), now)[j],
                IssueKind::ConfigReloadIssue,
                "/"@,
                warnings[i],
            ) && with_warnings(g, warnings.take(i + 1), now)[j].last_seen == now,
{
    let first = warnings.take(i + 1);
    let before = with_warnings(g, first.drop_last(), now);
    let o = reload_occurrence(now);
    let kind = IssueKind::ConfigReloadIssue;
    assert(first.last() == warnings[i]);
    let after = recorded(before, kind, "/"@, warnings[i], o);
    assert(with_warnings(g, first, now) == after);
    lemma_recorded_is_there(before, kind, "/"@, warnings[i], o);
    let j = choose|j: int|
        0 <= j < after.len() && is_group(#[trigger] after[j], kind, "/"@, warnings[i])
            && after[j].last_seen == o.unix_secs;
    assert(is_group(with_warnings(g, first, now)[j], kind, "/"@, warnings[i]));
}

/// The development server is stopped only where the settings of the proxy changed,
/// and one is started only after the one before was stopped.
pub proof fn children_stop_for_new_settings(
    current: ResolvedView,
    s: ReloadStepView,
    e: ReloadEventView,
)
    ensures
        reload_after(current, s, e) is StopChild && !(s is StopChild) ==> restarts(
            current,
            carried(reload_after(current, s, e))->0.opts,
        ),
        reload_after(current, s, e) is StartChild ==> s is StopChild || s is StartChild,
{
}

/// Through every reload the served directory stays the same, and the settings that
/// are put in place speak of the listener that is there: the old one, unless a new
/// one was bound.
pub proof fn reloads_keep_the_directory(current: ResolvedView, events: Seq<ReloadEventView>)
    ensures
        carried(reload_course(current, events)) matches Some(r) ==> {
            &&& same_path(r.opts.base_dir, current.base_dir)
            &&& !(reload_course(current, events) is Bind) && !r.rebound ==> !rebinds(
                current,
                r.opts,
            )
        },
    decreases events.len(),
{
    if events.len() > 0 {
        reloads_keep_the_directory(current, events.drop_last());
    }
}

/// A reload comes to an end: each step that is done leaves fewer of them.
pub proof fn reloads_come_to_an_end(current: ResolvedView, s: ReloadStepView, e: ReloadEventView)
    ensures
        reload_after(current, s, e) == s || 0 <= reload_steps_left(reload_after(current, s, e))
            < reload_steps_left(s),
        !(s is Load) && !(s is Done) ==> reload_after(current, s, ReloadEventView::Finished) != s,
{
}

/// After a listener could not be bound, the settings ask for no other one than
/// the one that is there, and they are the new ones in everything else.
pub proof fn failed_binds_keep_the_listener(old: ResolvedView, new: ResolvedView)
    ensures
        !rebinds(old, kept_listener(old, new)),
        kept_listener(old, new).proxy == new.proxy,
        kept_listener(old, new).mime_types == new.mime_types,
        reopens(old, kept_listener(old, new)) == reopens(old, new),
{
}

} // verus!
