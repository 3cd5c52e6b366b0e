//! The rules that a user keeps and the limiter instances that are running.

use vstd::prelude::*;

use crate::clock::Timestamp;
use crate::cpu;
use crate::cpu::CpuPercent;
use crate::text;
use crate::text::copy_opt;

verus! {

/// The launchd domain that a rule or an instance belongs to.
#[derive(Clone, Copy, Debug, PartialEq, Eq, Hash, Structural)]
pub enum Domain {
    User,
    System,
}

/// How a domain is written.
pub open spec fn domain_name(d: Domain) -> Seq<char> {
    match d {
        Domain::User => "user"@,
        Domain::System => "system"@,
    }
}

impl Domain {
    /// How this domain is written.
    pub fn name(self) -> (r: &'static str)
        ensures
            r@ == domain_name(self),
    {
        match self {
            Domain::User => "user",
            Domain::System => "system",
        }
    }
}

/// The load at which a rule that names none starts to limit.
pub fn default_trigger_cpu() -> (r: CpuPercent)
    ensures
        r.bits == cpu::DEFAULT_TRIGGER_CPU_BITS,
{
    CpuPercent { bits: cpu::DEFAULT_TRIGGER_CPU_BITS }
}

/// The load at which a rule that names none lets go.
pub fn default_release_cpu() -> (r: CpuPercent)
    ensures
        r.bits == cpu::DEFAULT_RELEASE_CPU_BITS,
{
    CpuPercent { bits: cpu::DEFAULT_RELEASE_CPU_BITS }
}

/// A rule: limit the processes of this name while they are hot.
#[derive(Debug)]
pub struct Rule {
    pub name: String,
    pub limit: u16,
    pub trigger_cpu: CpuPercent,
    pub release_cpu: CpuPercent,
    pub args_contains: Option<String>,
    pub domain: Domain,
    pub created_at: Timestamp,
    pub updated_at: Timestamp,
}

/// What a [`Rule`] holds.
pub struct RuleView {
    pub name: Seq<char>,
    pub limit: u16,
    pub trigger_cpu: CpuPercent,
    pub release_cpu: CpuPercent,
    pub args_contains: Option<Seq<char>>,
    pub domain: Domain,
    pub created_at: Timestamp,
    pub updated_at: Timestamp,
}

impl View for Rule {
    type V = RuleView;

    open spec fn view(&self) -> RuleView {
        RuleView {
            name: self.name@,
            limit: self.limit,
            trigger_cpu: self.trigger_cpu,
            release_cpu: self.release_cpu,
            args_contains: text::opt_text(self.args_contains),
            domain: self.domain,
            created_at: self.created_at,
            updated_at: self.updated_at,
        }
    }
}

impl Clone for Rule {
    fn clone(&self) -> (r: Rule)
        ensures
            r == *self,
    {
        Rule {
            name: self.name.clone(),
            limit: self.limit,
            trigger_cpu: self.trigger_cpu,
            release_cpu: self.release_cpu,
            args_contains: copy_opt(&self.args_contains),
            domain: self.domain,
            created_at: self.created_at,
            updated_at: self.updated_at,
        }
    }
}

/// The rules as they are stored.
#[derive(Debug)]
pub struct RulesFile {
    pub version: u16,
    pub rules: Vec<Rule>,
}

/// What a [`RulesFile`] holds.
pub struct RulesView {
    pub version: u16,
    pub rules: Seq<RuleView>,
}

/// What a list of rules holds.
pub open spec fn rules_of(v: Seq<Rule>) -> Seq<RuleView> {
    v.map_values(|r: Rule| r@)
}

impl View for RulesFile {
    type V = RulesView;

    open spec fn view(&self) -> RulesView {
        RulesView { version: self.version, rules: rules_of(self.rules@) }
    }
}

/// A copy of a list of rules.
fn copy_rules(v: &Vec<Rule>) -> (r: Vec<Rule>)
    ensures
        rules_of(r@) == rules_of(v@),
{
    let mut out: Vec<Rule> = Vec::new();
    let mut i: usize = 0;
    while i < v.len()
        invariant
            i <= v.len(),
            out@ == v@.take(i as int),
        decreases v.len() - i,
    {
        out.push(v[i].clone());
        i += 1;
    }
    assert(out@ == v@);
    out
}

impl Clone for RulesFile {
    fn clone(&self) -> (r: RulesFile)
        ensures
            r@ == self@,
    {
        RulesFile { version: self.version, rules: copy_rules(&self.rules) }
    }
}

impl Default for RulesFile {
    /// No rules, in the current format.
    fn default() -> (r: RulesFile)
        ensures
            r@ == (RulesView { version: 2, rules: Seq::empty() }),
    {
        let r = RulesFile { version: 2, rules: Vec::new() };
        assert(r@.rules =~= Seq::empty());
        r
    }
}

/// Who started an instance.
#[derive(Clone, Copy, Debug, PartialEq, Eq, Structural)]
pub enum ManagedMode {
    Adhoc,
    Watch,
}

/// How a mode is written.
pub open spec fn mode_name(m: ManagedMode) -> Seq<char> {
    match m {
        ManagedMode::Adhoc => "adhoc"@,
        ManagedMode::Watch => "watch"@,
    }
}

impl ManagedMode {
    /// How this mode is written.
    pub fn name(self) -> (r: &'static str)
        ensures
            r@ == mode_name(self),
    {
        match self {
            ManagedMode::Adhoc => "adhoc",
            ManagedMode::Watch => "watch",
        }
    }
}

/// What an instance limits.
#[derive(Debug)]
pub enum ManagedTarget {
    Pid(u32),
    Name(String),
}

/// What a [`ManagedTarget`] holds.
pub enum TargetView {
    Pid(u32),
    Name(Seq<char>),
}

impl View for ManagedTarget {
    type V = TargetView;

    open spec fn view(&self) -> TargetView {
        match self {
            ManagedTarget::Pid(p) => TargetView::Pid(*p),
            ManagedTarget::Name(n) => TargetView::Name(n@),
        }
    }
}

impl Clone for ManagedTarget {
    fn clone(&self) -> (r: ManagedTarget)
        ensures
            r == *self,
    {
        match self {
            ManagedTarget::Pid(p) => ManagedTarget::Pid(*p),
            ManagedTarget::Name(n) => ManagedTarget::Name(n.clone()),
        }
    }
}

/// A limiter process that this tool started.
#[derive(Debug)]
pub struct ManagedInstance {
    pub id: String,
    pub mode: ManagedMode,
    pub cpulimit_pid: u32,
    pub target: ManagedTarget,
    pub rule_name: Option<String>,
    pub limit: Option<u16>,
    pub last_observed_cpu: Option<CpuPercent>,
    pub domain: Domain,
    pub started_at: Timestamp,
    pub owner_label: Option<String>,
}

/// What a [`ManagedInstance`] holds.
pub struct InstanceView {
    pub id: Seq<char>,
    pub mode: ManagedMode,
    pub cpulimit_pid: u32,
    pub target: TargetView,
    pub rule_name: Option<Seq<char>>,
    pub limit: Option<u16>,
    pub last_observed_cpu: Option<CpuPercent>,
    pub domain: Domain,
    pub started_at: Timestamp,
    pub owner_label: Option<Seq<char>>,
}

impl View for ManagedInstance {
    type V = InstanceView;

    open spec fn view(&self) -> InstanceView {
        InstanceView {
            id: self.id@,
            mode: self.mode,
            cpulimit_pid: self.cpulimit_pid,
            target: self.target@,
            rule_name: text::opt_text(self.rule_name),
            limit: self.limit,
            last_observed_cpu: self.last_observed_cpu,
            domain: self.domain,
            started_at: self.started_at,
            owner_label: text::opt_text(self.owner_label),
        }
    }
}

impl Clone for ManagedInstance {
    fn clone(&self) -> (r: ManagedInstance)
        ensures
            r == *self,
    {
        ManagedInstance {
            id: self.id.clone(),
            mode: self.mode,
            cpulimit_pid: self.cpulimit_pid,
            target: self.target.clone(),
            rule_name: copy_opt(&self.rule_name),
            limit: self.limit,
            last_observed_cpu: self.last_observed_cpu,
            domain: self.domain,
            started_at: self.started_at,
            owner_label: copy_opt(&self.owner_label),
        }
    }
}

/// The instances as they are stored.
#[derive(Debug)]
pub struct StateFile {
    pub version: u16,
    pub instances: Vec<ManagedInstance>,
}

/// What a [`StateFile`] holds.
pub struct StateView {
    pub version: u16,
    pub instances: Seq<InstanceView>,
}

/// What a list of instances holds.
pub open spec fn instances_of(v: Seq<ManagedInstance>) -> Seq<InstanceView> {
    v.map_values(|i: ManagedInstance| i@)
}

impl View for StateFile {
    type V = StateView;

    open spec fn view(&self) -> StateView {
        StateView { version: self.version, instances: instances_of(self.instances@) }
    }
}

impl Clone for StateFile {
    fn clone(&self) -> (r: StateFile)
        ensures
            r@ == self@,
    {
        let mut out: Vec<ManagedInstance> = Vec::new();
        let mut i: usize = 0;
        while i < self.instances.len()
            invariant
                i <= self.instances.len(),
                out@ == self.instances@.take(i as int),
            decreases self.instances.len() - i,
        {
            out.push(self.instances[i].clone());
            i += 1;
        }
        assert(out@ == self.instances@);
        StateFile { version: self.version, instances: out }
    }
}

impl Default for StateFile {
    /// No instances, in the current format.
    fn default() -> (r: StateFile)
        ensures
            r@ == (StateView { version: 2, instances: Seq::empty() }),
    {
        let r = StateFile { version: 2, instances: Vec::new() };
        assert(r@.instances =~= Seq::empty());
        r
    }
}

} // verus!
