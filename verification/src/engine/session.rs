//! A download from its probe to its report, as a machine: an event comes in, an action goes out.

use crate::checksum::Checksum;
use crate::control::Control;
use crate::engine::output::Output;
use crate::engine::resume;
use crate::engine::resume::resume_plan;
use crate::engine::resume::ResumePlan;
use crate::error;
use crate::error::Error;
use crate::text;
use crate::vocabulary::Options;
use crate::vocabulary::Probe;
use crate::vocabulary::Report;
use crate::engine::scatter;
use crate::range;
use vstd::prelude::*;

verus! {

/// What a download waits for.
pub enum Phase {
    /// The probe of the resource.
    Probing,
    /// What the scratch of an earlier run holds.
    Reading {
        /// What the probe said.
        probe: Probe,
    },
    /// The end of the parallel download and of its verification.
    Scattering {
        /// The resource's length.
        length: u64,
    },
    /// The end of the single stream.
    Streaming {
        /// The resource's length.
        length: u64,
    },
    /// The control trailer to be cut off the scratch.
    Cutting {
        /// What will be reported.
        report: Report,
    },
    /// The scratch to be delivered to the sink.
    Delivering {
        /// What will be reported.
        report: Report,
    },
    /// Nothing more.
    Over,
}

/// What came of an action.
pub enum Event {
    /// The source answered the probe.
    Probed(Probe),
    /// What the scratch file holds: its control, if it has a valid one, and its length (zero if there is no
    /// such file).
    Partial {
        /// The control.
        control: Option<Control>,
        /// The length.
        len: u64,
    },
    /// The bytes were fetched and verified; their digest, if one was asked for.
    Fetched(Option<String>),
    /// It is done.
    Done,
    /// It failed.
    Failed(Error),
}

/// What to do next.
pub enum Action {
    /// Read the control and the length of the scratch.
    ReadPartial,
    /// Reopen the scratch, keeping what it holds, and fetch the rest of the plan into it.
    Reopen(ResumePlan),
    /// Create the scratch anew with an empty control, and fetch the plan into it.
    Allocate {
        /// The plan.
        plan: ResumePlan,
        /// The validator to record.
        validator: Option<String>,
        /// The re-openable reference to the resource to record, if it has one.
        source: Option<String>,
        /// The algorithm to record.
        checksum: Checksum,
    },
    /// Fetch the resource as one stream.
    Stream,
    /// Cut the control off the scratch, at this length.
    Truncate(u64),
    /// Deliver the scratch to the sink.
    Deliver,
    /// Tell the progress display that it is over, and return this report.
    Complete(Report),
    /// Return this error.
    Fail(Error),
}

/// A download under way.
pub struct Session {
    /// Whether the sink keeps a file, which is what a run can come back to.
    pub keeps_file: bool,
    /// The options, without a resume that has nothing to come back to.
    pub options: Options,
    /// A re-openable reference to the resource, if it has one, so that a later run can rebuild the source from
    /// the `.xget` alone.
    pub source: Option<String>,
    /// What it waits for.
    pub phase: Phase,
}

/// How a resource is fetched once nothing more is to be found out about the scratch.
pub open spec fn fetches(
    session: Session,
    probe: Probe,
    control: Option<Control>,
    len: u64,
    phase: Phase,
    action: Action,
) -> bool {
    let validator = text::model::opt_view(probe.validator);
    if probe.supports_ranges && !session.options.sequential {
        exists|planned: Result<ResumePlan, Error>| #[trigger]
            resume::laid_out(probe.length, validator, session.options, control, len, planned)
                && match planned {
                Ok(plan) => {
                    &&& phase == (Phase::Scattering { length: probe.length })
                    &&& if plan.resumed {
                        action == Action::Reopen(plan)
                    } else {
                        action == (Action::Allocate {
                            plan,
                            validator: probe.validator,
                            source: session.source,
                            checksum: session.options.checksum,
                        })
                    }
                },
                Err(e) => phase is Over && action == Action::Fail(e),
            }
    } else if session.options.resume && !probe.supports_ranges && len > 0 {
        &&& phase is Over
        &&& action matches Action::Fail(e)
        &&& error::is_detail(e, "cannot resume: the source does not support byte ranges"@)
    } else {
        phase == (Phase::Streaming { length: probe.length }) && action is Stream
    }
}

/// Whether what is in the scratch matters to how a resource is fetched.
pub open spec fn needs_partial(options: Options, probe: Probe) -> bool {
    options.resume && (!probe.supports_ranges || !options.sequential)
}

/// What a download does on an event, and what it then waits for.
pub open spec fn follows(session: Session, event: Event, phase: Phase, action: Action) -> bool {
    match (session.phase, event) {
        (_, Event::Failed(e)) => phase is Over && action == Action::Fail(e),
        (Phase::Probing, Event::Probed(probe)) => if needs_partial(session.options, probe) {
            phase == (Phase::Reading { probe }) && action is ReadPartial
        } else {
            fetches(session, probe, None, 0, phase, action)
        },
        (Phase::Reading { probe }, Event::Partial { control, len }) => fetches(
            session,
            probe,
            control,
            len,
            phase,
            action,
        ),
        (Phase::Scattering { length }, Event::Fetched(hash)) => phase == (Phase::Cutting {
            report: Report { length, hash },
        }) && action == Action::Truncate(length),
        (Phase::Streaming { length }, Event::Fetched(hash)) => if session.keeps_file {
            phase == (Phase::Delivering { report: Report { length, hash } }) && action is Deliver
        } else {
            phase is Over && action == Action::Complete(Report { length, hash })
        },
        (Phase::Cutting { report }, Event::Done) => phase == (Phase::Delivering { report })
            && action is Deliver,
        (Phase::Delivering { report }, Event::Done) => phase is Over && action == Action::Complete(
            report,
        ),
        _ => false,
    }
}

/// Whether an event can come where a download stands.
pub open spec fn expected(phase: Phase, event: Event) -> bool {
    match (phase, event) {
        (_, Event::Failed(_)) => true,
        (Phase::Probing, Event::Probed(_)) => true,
        (Phase::Reading { .. }, Event::Partial { .. }) => true,
        (Phase::Scattering { .. }, Event::Fetched(_)) => true,
        (Phase::Streaming { .. }, Event::Fetched(_)) => true,
        (Phase::Cutting { .. }, Event::Done) => true,
        (Phase::Delivering { .. }, Event::Done) => true,
        _ => false,
    }
}

/// Whether this is how a download starts, to a sink that keeps a file or does not.
pub open spec fn starts(
    keeps_file: bool,
    options: Options,
    source: Option<String>,
    session: Session,
) -> bool {
    &&& session.keeps_file == keeps_file
    &&& session.options == (Options { resume: options.resume && keeps_file, ..options })
    &&& session.source == source
    &&& session.phase is Probing
}

impl Session {
    /// Start a download to `output`, whose first action is to probe the source. Resume comes back to a
    /// persistent `.xget`, so any output that keeps a file may resume; a writer or a discard has nothing to
    /// return to and forces no resume.
    pub fn new<F, W>(output: &Output<F, W>, options: Options, source: Option<String>) -> (session: Session)
        ensures
            starts(output.kept() is Some, options, source, session),
    {
        let keeps_file = output.first_file().is_some();
        let options = Options { resume: options.resume && keeps_file, ..options };
        Session { keeps_file, options, source, phase: Phase::Probing }
    }

    fn fetch(self, probe: Probe, control: Option<Control>, len: u64) -> (next: (Session, Action))
        ensures
            next.0.keeps_file == self.keeps_file,
            next.0.options == self.options,
            next.0.source == self.source,
            fetches(self, probe, control, len, next.0.phase, next.1),
    {
        // A sequential download uses the single-stream path even for a range source: one ordered connection,
        // no scatter. It trades parallel speed for zero holding space.
        let (phase, action) = if probe.supports_ranges && !self.options.sequential {
            let validator = match &probe.validator {
                Some(validator) => Some(validator.as_str()),
                None => None,
            };
            let planned = resume_plan(probe.length, validator, &self.options, control, len);
            assert(resume::laid_out(
                probe.length,
                text::model::opt_view(probe.validator),
                self.options,
                control,
                len,
                planned,
            ));
            match planned {
                Ok(plan) => {
                    let phase = Phase::Scattering { length: probe.length };
                    if plan.resumed {
                        (phase, Action::Reopen(plan))
                    } else {
                        let source = text::copy_opt(&self.source);
                        let checksum = self.options.checksum;
                        (
                            phase,
                            Action::Allocate { plan, validator: probe.validator, source, checksum },
                        )
                    }
                },
                Err(e) => (Phase::Over, Action::Fail(e)),
            }
        } else if self.options.resume && !probe.supports_ranges && len > 0 {
            // Only a genuine non-range source is unresumable for this reason. A range-capable source taken
            // down this path was forced sequential; a single stream simply cannot resume, so it restarts.
            let e = Error::detail("cannot resume: the source does not support byte ranges");
            (Phase::Over, Action::Fail(e))
        } else {
            (Phase::Streaming { length: probe.length }, Action::Stream)
        };
        (
            Session {
                keeps_file: self.keeps_file,
                options: self.options,
                source: self.source,
                phase,
            },
            action,
        )
    }

    /// Take an event, and say what to do next.
    pub fn step(self, event: Event) -> (next: (Session, Action))
        requires
            expected(self.phase, event),
        ensures
            next.0.keeps_file == self.keeps_file,
            next.0.options == self.options,
            next.0.source == self.source,
            follows(self, event, next.0.phase, next.1),
    {
        let Session { keeps_file, options, source, phase } = self;
        match (phase, event) {
            (_, Event::Failed(e)) => (
                Session { keeps_file, options, source, phase: Phase::Over },
                Action::Fail(e),
            ),
            (Phase::Probing, Event::Probed(probe)) => {
                if options.resume && (!probe.supports_ranges || !options.sequential) {
                    (
                        Session { keeps_file, options, source, phase: Phase::Reading { probe } },
                        Action::ReadPartial,
                    )
                } else {
                    let session = Session { keeps_file, options, source, phase: Phase::Probing };
                    session.fetch(probe, None, 0)
                }
            },
            (Phase::Reading { probe }, Event::Partial { control, len }) => {
                let session = Session { keeps_file, options, source, phase: Phase::Probing };
                session.fetch(probe, control, len)
            },
            (Phase::Scattering { length }, Event::Fetched(hash)) => {
                let report = Report { length, hash };
                (
                    Session { keeps_file, options, source, phase: Phase::Cutting { report } },
                    Action::Truncate(length),
                )
            },
            (Phase::Streaming { length }, Event::Fetched(hash)) => {
                let report = Report { length, hash };
                if keeps_file {
                    (
                        Session { keeps_file, options, source, phase: Phase::Delivering { report } },
                        Action::Deliver,
                    )
                } else {
                    (Session { keeps_file, options, source, phase: Phase::Over }, Action::Complete(report))
                }
            },
            (Phase::Cutting { report }, Event::Done) => (
                Session { keeps_file, options, source, phase: Phase::Delivering { report } },
                Action::Deliver,
            ),
            (Phase::Delivering { report }, Event::Done) => (
                Session { keeps_file, options, source, phase: Phase::Over },
                Action::Complete(report),
            ),
            (_, _) => (
                Session { keeps_file, options, source, phase: Phase::Over },
                Action::Fail(Error::detail("unexpected event")),
            ),
        }
    }
}

/// Nothing is reported that was not fetched and verified: a report comes only after the bytes were fetched,
/// and it carries the length that the probe declared and the digest that the verification returned.
pub proof fn law_report_is_of_what_was_verified(
    session: Session,
    event: Event,
    phase: Phase,
    action: Action,
)
    requires
        follows(session, event, phase, action),
    ensures
        action matches Action::Complete(report) ==> {
            ||| session.phase matches Phase::Streaming { length } && event == Event::Fetched(report.hash)
                && report.length == length
            ||| session.phase matches Phase::Delivering { report: verified } && report == verified
        },
        action matches Action::Deliver ==> {
            ||| (session.phase matches Phase::Streaming { length } && (event matches Event::Fetched(hash)
                && phase == (Phase::Delivering { report: Report { length, hash } })))
            ||| session.phase matches Phase::Cutting { report } && phase == (Phase::Delivering { report })
        },
        phase matches Phase::Cutting { report } ==> session.phase == (Phase::Scattering {
            length: report.length,
        }) && event == Event::Fetched(report.hash),
{
}

/// An existing scratch is only ever kept to be resumed: it is reopened only where a resume was asked for and
/// the sink keeps a file.
pub proof fn law_only_a_resume_reopens(session: Session, event: Event, phase: Phase, action: Action)
    requires
        follows(session, event, phase, action),
        !session.options.resume,
    ensures
        !(action is Reopen),
{
}

/// A resource that serves ranges is fetched in parallel, in as many chunks as were asked for as far as there are
/// bytes for them, from the first byte to the last, into a scratch of its own, unless a single stream was asked
/// for. Its version, its source and the algorithm are recorded.
pub proof fn law_range_source_is_fetched_in_parallel(
    session: Session,
    probe: Probe,
    phase: Phase,
    action: Action,
)
    requires
        session.phase is Probing,
        follows(session, Event::Probed(probe), phase, action),
        probe.supports_ranges,
        !session.options.sequential,
        !session.options.resume,
    ensures
        phase == (Phase::Scattering { length: probe.length }),
        action matches Action::Allocate { plan, validator, source, checksum } && {
            &&& plan.starts_over(probe.length, session.options.parts)
            &&& validator == probe.validator
            &&& source == session.source
            &&& checksum == session.options.checksum
        },
{
    let validator = text::model::opt_view(probe.validator);
    let planned = choose|planned: Result<ResumePlan, Error>| #[trigger]
        resume::laid_out(probe.length, validator, session.options, None, 0, planned) && match planned {
            Ok(plan) => {
                &&& phase == (Phase::Scattering { length: probe.length })
                &&& if plan.resumed {
                    action == Action::Reopen(plan)
                } else {
                    action == (Action::Allocate {
                        plan,
                        validator: probe.validator,
                        source: session.source,
                        checksum: session.options.checksum,
                    })
                }
            },
            Err(e) => phase is Over && action == Action::Fail(e),
        };
    resume::law_fresh_run_fetches_everything(
        probe.length,
        validator,
        session.options,
        None,
        0,
        planned,
    );
}

/// A resource that serves no ranges, and any for which that was asked, is fetched as one stream, where there is
/// nothing to come back to.
pub proof fn law_other_source_is_streamed(session: Session, probe: Probe, phase: Phase, action: Action)
    requires
        session.phase is Probing,
        follows(session, Event::Probed(probe), phase, action),
        !probe.supports_ranges || session.options.sequential,
        !session.options.resume || (probe.supports_ranges && session.options.sequential),
    ensures
        phase == (Phase::Streaming { length: probe.length }),
        action is Stream,
{
}

/// A resume first looks at what is on disk.
pub proof fn law_resume_looks_first(session: Session, probe: Probe, phase: Phase, action: Action)
    requires
        session.phase is Probing,
        follows(session, Event::Probed(probe), phase, action),
        session.options.resume,
        !session.options.sequential,
    ensures
        phase == (Phase::Reading { probe }),
        action is ReadPartial,
{
}

/// A partial of an unchanged resource is reopened, with a plan that leaves out exactly the bytes that it records.
pub proof fn law_unchanged_partial_is_reopened(
    session: Session,
    probe: Probe,
    control: Control,
    len: u64,
    phase: Phase,
    action: Action,
)
    requires
        session.phase == (Phase::Reading { probe }),
        follows(session, Event::Partial { control: Some(control), len }, phase, action),
        probe.supports_ranges,
        session.options.resume,
        !session.options.sequential,
        control.total == probe.length,
        control.validator is None || probe.validator is None || control.validator->0@
            == probe.validator->0@,
    ensures
        phase == (Phase::Scattering { length: probe.length }),
        action matches Action::Reopen(plan) && {
            &&& range::tiles(plan.ranges@, 0, probe.length as int)
            &&& forall|at: int|
                0 <= at < probe.length ==> #[trigger] scatter::arrived(plan.received@, plan.ranges@, at)
                    == range::covered(control.done@, at)
        },
{
    let validator = text::model::opt_view(probe.validator);
    let planned = choose|planned: Result<ResumePlan, Error>| #[trigger]
        resume::laid_out(probe.length, validator, session.options, Some(control), len, planned)
            && match planned {
            Ok(plan) => {
                &&& phase == (Phase::Scattering { length: probe.length })
                &&& if plan.resumed {
                    action == Action::Reopen(plan)
                } else {
                    action == (Action::Allocate {
                        plan,
                        validator: probe.validator,
                        source: session.source,
                        checksum: session.options.checksum,
                    })
                }
            },
            Err(e) => phase is Over && action == Action::Fail(e),
        };
    resume::law_unchanged_resource_is_resumed(
        probe.length,
        validator,
        session.options,
        control,
        len,
        planned,
    );
}

/// A partial of a changed resource is never reopened: the scratch is created anew and everything is fetched.
pub proof fn law_changed_partial_is_discarded(
    session: Session,
    probe: Probe,
    control: Control,
    len: u64,
    phase: Phase,
    action: Action,
)
    requires
        session.phase == (Phase::Reading { probe }),
        follows(session, Event::Partial { control: Some(control), len }, phase, action),
        probe.supports_ranges,
        !session.options.sequential,
        control.total != probe.length || (control.validator is Some && probe.validator is Some
            && control.validator->0@ != probe.validator->0@),
    ensures
        action matches Action::Allocate { plan, validator, source, checksum } && plan.starts_over(
            probe.length,
            session.options.parts,
        ),
{
    let validator = text::model::opt_view(probe.validator);
    let planned = choose|planned: Result<ResumePlan, Error>| #[trigger]
        resume::laid_out(probe.length, validator, session.options, Some(control), len, planned)
            && match planned {
            Ok(plan) => {
                &&& phase == (Phase::Scattering { length: probe.length })
                &&& if plan.resumed {
                    action == Action::Reopen(plan)
                } else {
                    action == (Action::Allocate {
                        plan,
                        validator: probe.validator,
                        source: session.source,
                        checksum: session.options.checksum,
                    })
                }
            },
            Err(e) => phase is Over && action == Action::Fail(e),
        };
    resume::law_changed_resource_is_fetched_anew(
        probe.length,
        validator,
        session.options,
        control,
        len,
        planned,
    );
}

/// What was fetched in parallel is cut off at its length, then delivered, then reported, with the digest that was
/// verified; what was streamed to a file is delivered and reported; what was streamed elsewhere is reported.
/// Nothing else ends well, and any failure ends it.
pub proof fn law_every_download_ends_in_order(session: Session, event: Event, phase: Phase, action: Action)
    requires
        follows(session, event, phase, action),
    ensures
        event matches Event::Failed(e) ==> phase is Over && action == Action::Fail(e),
        session.phase matches Phase::Scattering { length } ==> (event matches Event::Fetched(hash) ==> action
            == Action::Truncate(length) && phase == (Phase::Cutting {
            report: Report { length, hash },
        })),
        session.phase matches Phase::Cutting { report } ==> (event is Done ==> action is Deliver && phase == (
        Phase::Delivering { report })),
        session.phase matches Phase::Delivering { report } ==> (event is Done ==> action
            == Action::Complete(report) && phase is Over),
        session.phase matches Phase::Streaming { length } ==> (event matches Event::Fetched(hash)
            ==> if session.keeps_file {
            action is Deliver && phase == (Phase::Delivering { report: Report { length, hash } })
        } else {
            action == Action::Complete(Report { length, hash }) && phase is Over
        }),
{
}

/// A source that serves no ranges cannot be resumed: a resume looks first, is refused where something is there, and
/// streams the whole where nothing is.
pub proof fn law_stream_cannot_be_resumed(
    session: Session,
    probe: Probe,
    control: Option<Control>,
    len: u64,
    looks: (Phase, Action),
    goes_on: (Phase, Action),
)
    requires
        session.phase is Probing,
        session.options.resume,
        !probe.supports_ranges,
        follows(session, Event::Probed(probe), looks.0, looks.1),
        follows(
            (Session { phase: looks.0, ..session }),
            Event::Partial { control, len },
            goes_on.0,
            goes_on.1,
        ),
    ensures
        looks.1 is ReadPartial,
        len > 0 ==> goes_on.0 is Over && goes_on.1 is Fail && error::is_detail(
            goes_on.1->Fail_0,
            "cannot resume: the source does not support byte ranges"@,
        ),
        len == 0 ==> goes_on.0 == (Phase::Streaming { length: probe.length }) && goes_on.1 is Stream,
{
}

/// A download is made as it was asked for, and resumed where that was asked for and the sink keeps a file.
pub proof fn law_download_is_made_as_asked(
    keeps_file: bool,
    options: Options,
    source: Option<String>,
    session: Session,
)
    requires
        starts(keeps_file, options, source, session),
    ensures
        session.options.resume <==> options.resume && keeps_file,
        session.options.parts == options.parts,
        session.options.retries == options.retries,
        session.options.checksum == options.checksum,
        session.options.timeout == options.timeout,
        session.options.sequential == options.sequential,
        session.source == source,
        session.phase is Probing,
{
}

} // verus!
