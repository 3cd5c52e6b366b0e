//! Asking processes, one by one, for their names and command lines.

use vstd::prelude::*;

use crate::app::dialogue::{Reply, ReplyView, Request, RequestView};
use crate::text;
use crate::text::{contains, is_text};

verus! {

/// Something to find out: a verdict that is known, or one that a process has to be asked for.
#[derive(Clone, Copy, Debug, PartialEq, Eq, Structural)]
pub enum Probe {
    Known(bool),
    Ask(u32),
}

/// A survey under way: does each process have this name and, if there is a needle, does its
/// command line hold it? A process that was asked for its name, and has it, is asked for its
/// command line next.
#[derive(Debug)]
pub struct Survey {
    pub name: String,
    pub needle: Option<String>,
    pub probes: Vec<Probe>,
    pub verdicts: Vec<bool>,
    pub named: bool,
}

/// What a [`Survey`] holds.
#[verifier::ext_equal]
pub struct SurveyView {
    pub name: Seq<char>,
    pub needle: Option<Seq<char>>,
    pub probes: Seq<Probe>,
    pub verdicts: Seq<bool>,
    pub named: bool,
}

impl View for Survey {
    type V = SurveyView;

    open spec fn view(&self) -> SurveyView {
        SurveyView {
            name: self.name@,
            needle: text::opt_text(self.needle),
            probes: self.probes@,
            verdicts: self.verdicts@,
            named: self.named,
        }
    }
}

impl SurveyView {
    /// Whether each verdict is in.
    pub open spec fn is_done(self) -> bool {
        self.verdicts.len() >= self.probes.len()
    }

    /// Whether a process is to be asked next, if anything.
    pub open spec fn well_formed(self) -> bool {
        &&& self.verdicts.len() <= self.probes.len()
        &&& !self.is_done() ==> self.probes[self.verdicts.len() as int] is Ask
        &&& self.named ==> self.needle is Some && !self.is_done()
    }

    /// The process that is asked.
    pub open spec fn pid(self) -> u32 {
        self.probes[self.verdicts.len() as int]->Ask_0
    }

    /// The survey with the verdicts that are known filled in, up to one that is not.
    pub open spec fn settled(self) -> SurveyView
        decreases self.probes.len() - self.verdicts.len(),
    {
        if self.is_done() {
            self
        } else {
            match self.probes[self.verdicts.len() as int] {
                Probe::Known(b) => (SurveyView {
                    verdicts: self.verdicts.push(b),
                    ..self
                }).settled(),
                Probe::Ask(_) => self,
            }
        }
    }

    /// The survey with one more verdict.
    pub open spec fn judged(self, verdict: bool) -> SurveyView {
        (SurveyView { verdicts: self.verdicts.push(verdict), named: false, ..self }).settled()
    }

    /// The survey after a reply. A reply that is no text says nothing of the process.
    pub open spec fn answered(self, reply: ReplyView) -> SurveyView {
        let told = match reply {
            ReplyView::Text(t) => t,
            _ => None,
        };
        if self.is_done() {
            self
        } else if self.named {
            self.judged(told is Some && text::has_part(told->0, self.needle->0))
        } else if told != Some(self.name) {
            self.judged(false)
        } else if self.needle is None {
            self.judged(true)
        } else {
            SurveyView { named: true, ..self }
        }
    }

    /// What the survey asks for; nothing when it is done.
    pub open spec fn asks(self) -> Option<RequestView> {
        if self.is_done() {
            None
        } else if self.named {
            Some(RequestView::ArgsOf(self.pid()))
        } else {
            Some(RequestView::NameOf(self.pid()))
        }
    }
}

/// Filling in what is known keeps what there is to find out.
pub proof fn lemma_settled(s: SurveyView)
    ensures
        s.settled().probes == s.probes,
        s.settled().name == s.name,
        s.settled().needle == s.needle,
    decreases s.probes.len() - s.verdicts.len(),
{
    if !s.is_done() {
        match s.probes[s.verdicts.len() as int] {
            Probe::Known(b) => {
                lemma_settled(SurveyView { verdicts: s.verdicts.push(b), ..s });
            },
            Probe::Ask(_) => {},
        }
    }
}

/// A reply keeps what there is to find out.
pub proof fn lemma_answered(s: SurveyView, reply: ReplyView)
    ensures
        s.answered(reply).probes == s.probes,
        s.answered(reply).name == s.name,
        s.answered(reply).needle == s.needle,
{
    lemma_settled(SurveyView { verdicts: s.verdicts.push(true), named: false, ..s });
    lemma_settled(SurveyView { verdicts: s.verdicts.push(false), named: false, ..s });
}

/// A survey that has just begun.
pub open spec fn begun(
    name: Seq<char>,
    needle: Option<Seq<char>>,
    probes: Seq<Probe>,
) -> SurveyView {
    (SurveyView { name, needle, probes, verdicts: Seq::empty(), named: false }).settled()
}

impl Survey {
    /// Begins a survey.
    pub fn begin(name: String, needle: Option<String>, probes: Vec<Probe>) -> (r: Survey)
        ensures
            r@ == begun(name@, text::opt_text(needle), probes@),
            r@.well_formed(),
    {
        let mut survey = Survey { name, needle, probes, verdicts: Vec::new(), named: false };
        assert(survey@ =~= SurveyView {
            name: name@,
            needle: text::opt_text(needle),
            probes: probes@,
            verdicts: Seq::empty(),
            named: false,
        });
        survey.settle();
        survey
    }

    /// Fills in the verdicts that are known, up to one that is not.
    fn settle(&mut self)
        requires
            old(self)@.verdicts.len() <= old(self)@.probes.len(),
            !old(self)@.named,
        ensures
            final(self)@ == old(self)@.settled(),
            final(self)@.well_formed(),
    {
        let ghost goal = self@.settled();
        while self.verdicts.len() < self.probes.len()
            invariant_except_break
                self@.verdicts.len() <= self@.probes.len(),
                self@.settled() == goal,
                !self@.named,
            ensures
                self@ == goal,
                self@.well_formed(),
            decreases self.probes.len() - self.verdicts.len(),
        {
            let ghost here = self@;
            match self.probes[self.verdicts.len()] {
                Probe::Known(b) => {
                    self.verdicts.push(b);
                    assert(self@ =~= SurveyView { verdicts: here.verdicts.push(b), ..here });
                },
                Probe::Ask(_) => {
                    break;
                },
            }
        }
    }

    /// Takes a verdict.
    fn judge(&mut self, verdict: bool)
        requires
            old(self)@.verdicts.len() < old(self)@.probes.len(),
        ensures
            final(self)@ == old(self)@.judged(verdict),
            final(self)@.well_formed(),
    {
        self.verdicts.push(verdict);
        self.named = false;
        assert(self@ =~= SurveyView {
            verdicts: old(self)@.verdicts.push(verdict),
            named: false,
            ..old(self)@
        });
        self.settle();
    }

    /// Goes on by a reply.
    pub fn answer(&mut self, reply: Reply)
        requires
            old(self)@.well_formed(),
        ensures
            final(self)@ == old(self)@.answered(reply@),
            final(self)@.well_formed(),
    {
        let told = match reply {
            Reply::Text(t) => t,
            _ => None,
        };
        if self.verdicts.len() >= self.probes.len() {
            return ;
        }
        if self.named {
            let verdict = match (&told, &self.needle) {
                (Some(args), Some(needle)) => contains(args.as_str(), needle.as_str()),
                _ => false,
            };
            self.judge(verdict);
        } else if !is_text(&told, self.name.as_str()) {
            self.judge(false);
        } else if self.needle.is_none() {
            self.judge(true);
        } else {
            self.named = true;
        }
    }

    /// What the survey asks for; nothing when it is done.
    pub fn request(&self) -> (r: Option<Request>)
        requires
            self@.well_formed(),
        ensures
            match r {
                Some(request) => self@.asks() == Some(request@),
                None => self@.asks() is None,
            },
    {
        if self.verdicts.len() >= self.probes.len() {
            return None;
        }
        match self.probes[self.verdicts.len()] {
            Probe::Ask(pid) => if self.named {
                Some(Request::ArgsOf(pid))
            } else {
                Some(Request::NameOf(pid))
            },
            Probe::Known(_) => None,
        }
    }

    /// Whether each verdict is in.
    pub fn done(&self) -> (r: bool)
        ensures
            r == self@.is_done(),
    {
        self.verdicts.len() >= self.probes.len()
    }
}

} // verus!
