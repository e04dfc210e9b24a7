//! The steps of putting a container in place — recreating one with
//! changes, or launching an op — and what each reply leads to. The caller
//! carries out each step against the daemon and hands back the reply.
use vstd::prelude::*;

use crate::app::LogTarget;
use crate::ops::{Op, PullPolicy, RecreateRequest};
use crate::text::{concat2, owned};

verus! {

/// Work for the caller.
pub enum Step {
    /// Remove this container (by id or name), forcibly.
    Remove(String),
    /// Pull this image.
    Pull(String),
    /// Create the container, with the name and configuration the launch
    /// was made for.
    Create,
    /// Start the container with this id.
    Start(String),
    /// Report the outcome under the launch's label; nothing is left to do.
    Finish { ok: bool, message: String, open_logs: Option<LogTarget> },
}

/// How a step went.
pub enum Reply {
    /// It succeeded (a removal, a pull or a start).
    Done,
    /// The container was created with this id.
    Created(String),
    /// It failed; `not_found` when the daemon answered 404.
    Failed { not_found: bool, message: String },
}

/// Where a launch stands: the step it waits on.
#[derive(Clone, Copy, PartialEq, Eq, Structural)]
pub enum Stage {
    RemoveFirst,
    PullFirst,
    Create,
    PullMissing,
    CreateAgain,
    Start,
    RemoveAfter,
    Finished,
}

pub struct Launch {
    /// What the outcome is reported as.
    pub label: String,
    /// The name the container is created with.
    pub name: Option<String>,
    /// The image a pull fetches.
    pub image: String,
    pub pull: PullPolicy,
    /// A container to remove before anything else.
    pub remove_first: Option<String>,
    /// A failed first removal is no failure.
    pub tolerate_remove: bool,
    /// Pull before the first create.
    pub pull_first: bool,
    /// A container to remove once the new one runs.
    pub remove_after: Option<String>,
    /// Open the new container's logs when done.
    pub follow: bool,
    pub stage: Stage,
    /// The id of the created container.
    pub created: Option<String>,
}

/// The stage a launch begins in.
pub open spec fn start_stage(l: Launch) -> Stage {
    if l.remove_first is Some {
        Stage::RemoveFirst
    } else if l.pull_first {
        Stage::PullFirst
    } else {
        Stage::Create
    }
}

/// The view of an optional string.
pub open spec fn oview(o: Option<String>) -> Option<Seq<char>> {
    crate::ops::opt_view(o)
}

/// `s` is the step that stage `st` of launch `l` asks for, with `id` the
/// created container.
pub open spec fn step_for(l: Launch, st: Stage, id: Seq<char>, s: Step) -> bool {
    match st {
        Stage::RemoveFirst => s matches Step::Remove(t) && Some(t@) == oview(l.remove_first),
        Stage::PullFirst | Stage::PullMissing => s matches Step::Pull(i) && i@ == l.image@,
        Stage::Create | Stage::CreateAgain => s is Create,
        Stage::Start => s matches Step::Start(i) && i@ == id,
        Stage::RemoveAfter => s matches Step::Remove(t) && Some(t@) == oview(l.remove_after),
        Stage::Finished => false,
    }
}

/// `s` reports a failure with message `m`.
pub open spec fn failed_with(s: Step, m: Seq<char>) -> bool {
    s matches Step::Finish { ok, message, open_logs } && !ok && message@ == m && open_logs is None
}

/// The name a created container is shown by: the name it was given,
/// else the first twelve characters of its id.
pub open spec fn shown_name(name: Option<String>, id: Seq<char>) -> Seq<char> {
    match name {
        Some(n) => n@,
        None => crate::mock::take_at_most(id, 12),
    }
}

/// `s` reports success for launch `l`, whose container has id `id`.
pub open spec fn succeeded(l: Launch, id: Seq<char>, s: Step) -> bool {
    s matches Step::Finish { ok, message, open_logs } && ok && message@.len() == 0 && if l.follow {
        open_logs matches Some(t) && t.id@ == id && t.name@ == shown_name(l.name, id)
    } else {
        open_logs is None
    }
}

/// `r` fits stage `st`: creates answer with an id or a failure, the other
/// steps with success or a failure.
pub open spec fn fits(st: Stage, r: Reply) -> bool {
    match st {
        Stage::Create | Stage::CreateAgain => !(r is Done),
        Stage::Finished => false,
        _ => !(r is Created),
    }
}

/// The launch after the stage's step went well: the next stage.
pub open spec fn stage_after(l: Launch, st: Stage) -> Stage {
    match st {
        Stage::RemoveFirst => if l.pull_first {
            Stage::PullFirst
        } else {
            Stage::Create
        },
        Stage::PullFirst | Stage::PullMissing => if st == Stage::PullFirst {
            Stage::Create
        } else {
            Stage::CreateAgain
        },
        Stage::Create | Stage::CreateAgain => Stage::Start,
        Stage::Start => if l.remove_after is Some {
            Stage::RemoveAfter
        } else {
            Stage::Finished
        },
        _ => Stage::Finished,
    }
}

/// What a failure in stage `st` with message `m` reads as; the first
/// removal and the create after a pull say where they failed, a start says
/// so, other failures give the daemon's words.
pub open spec fn failure_text(st: Stage, m: Seq<char>) -> Seq<char> {
    match st {
        Stage::RemoveFirst | Stage::RemoveAfter => "remove old: "@ + m,
        Stage::CreateAgain => "create after pull failed: "@ + m,
        Stage::Start => "start: "@ + m,
        _ => m,
    }
}

/// The launch's settings are kept.
pub open spec fn same_launch(a: Launch, b: Launch) -> bool {
    &&& a.label == b.label
    &&& a.name == b.name
    &&& a.image == b.image
    &&& a.pull == b.pull
    &&& a.remove_first == b.remove_first
    &&& a.tolerate_remove == b.tolerate_remove
    &&& a.pull_first == b.pull_first
    &&& a.remove_after == b.remove_after
    &&& a.follow == b.follow
}

/// One transition: launch `old` got reply `r` to its step; `new` is the
/// launch after it and `s` the step it asks for next.
pub open spec fn advanced(old: Launch, r: Reply, new: Launch, s: Step) -> bool {
    let st = old.stage;
    let id = match r {
        Reply::Created(cid) => Some(cid),
        _ => old.created,
    };
    &&& same_launch(new, old)
    &&& oview(new.created) == oview(id)
    &&& match r {
        Reply::Failed { not_found, message } => {
            if st == Stage::RemoveFirst && old.tolerate_remove {
                // a failed first removal is passed over
                new.stage == stage_after(old, st) && step_for(old, new.stage, Seq::empty(), s)
            } else if st == Stage::Create && not_found && old.pull != PullPolicy::Never {
                // the image is missing: pull it and create again
                new.stage == Stage::PullMissing && step_for(old, Stage::PullMissing, Seq::empty(), s)
            } else {
                new.stage == Stage::Finished && failed_with(s, failure_text(st, message@))
            }
        },
        _ => {
            let next = stage_after(old, st);
            &&& new.stage == next
            &&& if next == Stage::Finished {
                succeeded(old, oview(id)->0, s)
            } else {
                step_for(old, next, match oview(id) {
                    Some(v) => v,
                    None => Seq::empty(),
                }, s)
            }
        },
    }
}

/// The order of a launch's work, step by step: a container is started only
/// right after it was created, the container to replace is removed at the
/// end only right after the new one started, a launch without a removal up
/// front never gets to one, and every removal asked for is one of these two.
/// For a recreate (see `for_recreate`) this is: with the same name the old
/// container goes first; otherwise it goes last, once the new container was
/// created and started.
pub proof fn lemma_launch_order(old: Launch, r: Reply, new: Launch, s: Step)
    requires
        advanced(old, r, new, s),
        fits(old.stage, r),
    ensures
        new.stage == Stage::Start ==> (old.stage == Stage::Create || old.stage == Stage::CreateAgain)
            && r is Created,
        new.stage == Stage::RemoveAfter ==> old.stage == Stage::Start && r is Done,
        old.remove_first is None && old.stage != Stage::RemoveFirst ==> new.stage
            != Stage::RemoveFirst,
        s is Remove ==> new.stage == Stage::RemoveFirst || new.stage == Stage::RemoveAfter,
{
}

fn clone_opt(o: &Option<String>) -> (r: Option<String>)
    ensures
        oview(r) == oview(*o),
{
    match o {
        Some(s) => Some(s.clone()),
        None => None,
    }
}

impl Launch {
    /// The launch holds what its stage needs: a container to remove, or
    /// the created container to start.
    pub open spec fn wf(&self) -> bool {
        &&& self.stage == Stage::RemoveFirst ==> self.remove_first is Some
        &&& self.stage == Stage::Start ==> self.created is Some
        &&& self.stage == Stage::RemoveAfter ==> self.remove_after is Some && self.created is Some
    }

    /// The steps of recreating a container with changes: the new one is
    /// created (pulling its image if missing) and started, then the old
    /// one removed — removed first instead when the name stays the same.
    /// Its logs open when the old container was running.
    pub fn for_recreate(req: &RecreateRequest) -> (r: Launch)
        ensures
            r.label@ == "recreate "@ + match req.spec.name {
                Some(n) => n@,
                None => req.old_name@,
            },
            oview(r.name) == oview(req.spec.name),
            r.image@ == match req.spec.image {
                Some(i) => i@,
                None => Seq::empty(),
            },
            r.pull == PullPolicy::Missing,
            !r.pull_first,
            !r.tolerate_remove,
            r.follow == req.was_running,
            oview(req.spec.name) == Some(req.old_name@) ==> oview(r.remove_first) == Some(
                req.old_id@,
            ) && r.remove_after is None,
            oview(req.spec.name) != Some(req.old_name@) ==> r.remove_first is None && oview(
                r.remove_after,
            ) == Some(req.old_id@),
            r.stage == start_stage(r),
            r.created is None,
            r.wf(),
    {
        let same_name = match &req.spec.name {
            Some(n) => crate::text::eq_str(n.as_str(), req.old_name.as_str()),
            None => false,
        };
        let label = match &req.spec.name {
            Some(n) => concat2("recreate ", n.as_str()),
            None => concat2("recreate ", req.old_name.as_str()),
        };
        let image = match &req.spec.image {
            Some(i) => i.clone(),
            None => String::new(),
        };
        let (remove_first, remove_after) = if same_name {
            (Some(req.old_id.clone()), None)
        } else {
            (None, Some(req.old_id.clone()))
        };
        let stage = if same_name {
            Stage::RemoveFirst
        } else {
            Stage::Create
        };
        Launch {
            label,
            name: clone_opt(&req.spec.name),
            image,
            pull: PullPolicy::Missing,
            remove_first,
            tolerate_remove: false,
            pull_first: false,
            remove_after,
            follow: req.was_running,
            stage,
            created: None,
        }
    }

    /// The steps of launching op `op_name`, to be created with `name`:
    /// a container of that name is removed first when the op replaces one
    /// (whether that works does not matter), the image is pulled first
    /// when the op always pulls, then the container is created (pulling
    /// a missing image unless the op never pulls) and started. Its logs
    /// open when the op follows them.
    pub fn for_op(op_name: &str, op: &Op, name: &Option<String>) -> (r: Launch)
        ensures
            r.label@ == "op "@ + op_name@,
            oview(r.name) == oview(*name),
            r.image@ == op.image_text(),
            r.pull == op.pull,
            r.pull_first == (op.pull == PullPolicy::Always),
            r.tolerate_remove,
            oview(r.remove_first) == if op.replace {
                oview(*name)
            } else {
                None
            },
            r.remove_after is None,
            r.follow == op.follow_logs,
            r.stage == start_stage(r),
            r.created is None,
            r.wf(),
    {
        let remove_first = if op.replace {
            clone_opt(name)
        } else {
            None
        };
        let pull_first = match op.pull {
            PullPolicy::Always => true,
            _ => false,
        };
        let stage = if remove_first.is_some() {
            Stage::RemoveFirst
        } else if pull_first {
            Stage::PullFirst
        } else {
            Stage::Create
        };
        Launch {
            label: concat2("op ", op_name),
            name: clone_opt(name),
            image: owned(op.image()),
            pull: op.pull,
            remove_first,
            tolerate_remove: true,
            pull_first,
            remove_after: None,
            follow: op.follow_logs,
            stage,
            created: None,
        }
    }

    /// The step the current stage asks for; the launch has not finished.
    pub fn step(&self) -> (s: Step)
        requires
            self.stage != Stage::Finished,
            self.wf(),
        ensures
            step_for(
                *self,
                self.stage,
                match oview(self.created) {
                    Some(v) => v,
                    None => Seq::empty(),
                },
                s,
            ),
    {
        match self.stage {
            Stage::RemoveFirst => match &self.remove_first {
                Some(t) => Step::Remove(t.clone()),
                None => Step::Remove(String::new()),
            },
            Stage::PullFirst | Stage::PullMissing => Step::Pull(self.image.clone()),
            Stage::Create | Stage::CreateAgain => Step::Create,
            Stage::Start => match &self.created {
                Some(i) => Step::Start(i.clone()),
                None => Step::Start(String::new()),
            },
            _ => match &self.remove_after {
                Some(t) => Step::Remove(t.clone()),
                None => Step::Remove(String::new()),
            },
        }
    }

    /// The outcome once the container runs.
    fn success(&self, id: &String) -> (s: Step)
        ensures
            succeeded(*self, id@, s),
    {
        let open_logs = if self.follow {
            let name = match &self.name {
                Some(n) => n.clone(),
                None => {
                    let v = crate::text::chars_of(id.as_str());
                    let n: usize = if v.len() >= 12 {
                        12
                    } else {
                        v.len()
                    };
                    let t = crate::text::slice_chars(&v, 0, n);
                    assert(t@ =~= crate::mock::take_at_most(id@, 12));
                    crate::text::string_of(&t)
                },
            };
            Some(LogTarget { id: id.clone(), name })
        } else {
            None
        };
        proof {
            reveal_strlit("");
        }
        Step::Finish { ok: true, message: String::new(), open_logs }
    }

    /// Takes the reply to the current step; the step that follows.
    pub fn advance(&mut self, reply: Reply) -> (s: Step)
        requires
            fits(old(self).stage, reply),
            old(self).wf(),
        ensures
            advanced(*old(self), reply, *final(self), s),
            final(self).wf(),
    {
        let st = self.stage;
        match reply {
            Reply::Failed { not_found, message } => {
                let pass_over = match st {
                    Stage::RemoveFirst => self.tolerate_remove,
                    _ => false,
                };
                let pull_missing = match (st, self.pull) {
                    (Stage::Create, PullPolicy::Never) => false,
                    (Stage::Create, _) => not_found,
                    _ => false,
                };
                if pass_over {
                    self.stage = if self.pull_first {
                        Stage::PullFirst
                    } else {
                        Stage::Create
                    };
                    self.step()
                } else if pull_missing {
                    self.stage = Stage::PullMissing;
                    self.step()
                } else {
                    self.stage = Stage::Finished;
                    let text = match st {
                        Stage::RemoveFirst | Stage::RemoveAfter => concat2(
                            "remove old: ",
                            message.as_str(),
                        ),
                        Stage::CreateAgain => concat2("create after pull failed: ", message.as_str()),
                        Stage::Start => concat2("start: ", message.as_str()),
                        _ => message,
                    };
                    Step::Finish { ok: false, message: text, open_logs: None }
                }
            },
            Reply::Created(id) => {
                self.created = Some(id);
                self.stage = Stage::Start;
                self.step()
            },
            Reply::Done => {
                let next = match st {
                    Stage::RemoveFirst => if self.pull_first {
                        Stage::PullFirst
                    } else {
                        Stage::Create
                    },
                    Stage::PullFirst => Stage::Create,
                    Stage::PullMissing => Stage::CreateAgain,
                    Stage::Start => if self.remove_after.is_some() {
                        Stage::RemoveAfter
                    } else {
                        Stage::Finished
                    },
                    _ => Stage::Finished,
                };
                self.stage = next;
                match next {
                    Stage::Finished => {
                        let id = match &self.created {
                            Some(i) => i.clone(),
                            None => String::new(),
                        };
                        self.success(&id)
                    },
                    _ => self.step(),
                }
            },
        }
    }
}

} // verus!
