//! Progress events: the emitters, and the one-line summaries that the
//! command line prints for the structured ones.

use vstd::prelude::*;
use crate::dashscope::opt_view;
use crate::text::{append_str, owned, str_eq};

verus! {

/// An emitter that drops every event.
#[derive(Clone, Debug, PartialEq)]
pub struct NoOpEmitter;

/// An emitter for the command line: it prints a summary of the structured
/// events, and every payload in full when `verbose` is set.
#[derive(Clone, Debug, PartialEq)]
pub struct LogEmitter {
    pub verbose: bool,
}

/// What a summary reads of an event's payload: its `step`, `status` and
/// `project_id` strings, its `success` flag, and the payload itself where
/// it is a string.
#[derive(Clone, Debug, PartialEq)]
pub struct EventFields {
    pub step: Option<String>,
    pub status: Option<String>,
    pub project_id: Option<String>,
    pub success: Option<bool>,
    pub text: Option<String>,
}

/// The summary line of an event, if it has one.
pub open spec fn event_summary(
    event: Seq<char>,
    step: Option<Seq<char>>,
    status: Option<Seq<char>>,
    project_id: Option<Seq<char>>,
    success: Option<bool>,
    text: Option<Seq<char>>,
) -> Option<Seq<char>> {
    if event == "agent-step"@ {
        match (step, status) {
            (Some(st), Some(s)) => Some(
                if s == "started"@ {
                    "  [started] "@ + st
                } else if s == "completed"@ {
                    "  [done] "@ + st
                } else {
                    "  ["@ + s + "] "@ + st
                },
            ),
            _ => None,
        }
    } else if event == "agent-pipeline-started"@ {
        match project_id {
            Some(p) => Some("Agent pipeline started for project: "@ + p),
            None => None,
        }
    } else if event == "agent-pipeline-complete"@ {
        match success {
            Some(true) => Some("Agent pipeline completed successfully."@),
            Some(false) => Some("Agent pipeline failed."@),
            None => None,
        }
    } else if event == "llm-error"@ {
        match text {
            Some(m) => Some("[error] "@ + m),
            None => None,
        }
    } else {
        None
    }
}

impl LogEmitter {
    /// The human-readable line printed for an event, if any.
    pub fn summary_line(&self, event: &str, f: &EventFields) -> (r: Option<String>)
        ensures
            opt_view(r) == event_summary(
                event@,
                opt_view(f.step),
                opt_view(f.status),
                opt_view(f.project_id),
                f.success,
                opt_view(f.text),
            ),
    {
        if str_eq(event, "agent-step") {
            match (&f.step, &f.status) {
                (Some(st), Some(s)) => {
                    let mut line = if str_eq(s.as_str(), "started") {
                        owned("  [started] ")
                    } else if str_eq(s.as_str(), "completed") {
                        owned("  [done] ")
                    } else {
                        let mut p = owned("  [");
                        append_str(&mut p, s.as_str());
                        append_str(&mut p, "] ");
                        p
                    };
                    append_str(&mut line, st.as_str());
                    Some(line)
                },
                _ => None,
            }
        } else if str_eq(event, "agent-pipeline-started") {
            match &f.project_id {
                Some(p) => {
                    let mut line = owned("Agent pipeline started for project: ");
                    append_str(&mut line, p.as_str());
                    Some(line)
                },
                None => None,
            }
        } else if str_eq(event, "agent-pipeline-complete") {
            match f.success {
                Some(true) => Some(owned("Agent pipeline completed successfully.")),
                Some(false) => Some(owned("Agent pipeline failed.")),
                None => None,
            }
        } else if str_eq(event, "llm-error") {
            match &f.text {
                Some(m) => {
                    let mut line = owned("[error] ");
                    append_str(&mut line, m.as_str());
                    Some(line)
                },
                None => None,
            }
        } else {
            None
        }
    }
}

} // verus!
