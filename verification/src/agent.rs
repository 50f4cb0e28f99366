//! The writing agent's data: the plan it proposes for an outline, the
//! requests that revise a script, and its configuration.

use vstd::prelude::*;
use crate::dashscope::{opt_view, or_empty};
use crate::error::{AppError, error_text};
use crate::text::{append_str, owned, str_eq};

verus! {

/// The plan of an audiobook that outline analysis proposes, for the user to
/// confirm before the script is written.
#[derive(Clone, Debug, PartialEq)]
pub struct AgentPlan {
    pub chapters: Vec<ChapterPlan>,
    pub suggested_characters: Vec<SuggestedCharacter>,
    pub overall_style: String,
    pub character_notes: String,
}

/// One chapter or scene of a plan.
#[derive(Clone, Debug, PartialEq)]
pub struct ChapterPlan {
    pub title: String,
    pub estimated_lines: u32,
    pub characters: Vec<String>,
    pub mood: String,
}

/// A character the analysis suggests, possibly matched to one the project
/// already has.
#[derive(Clone, Debug, PartialEq)]
pub struct SuggestedCharacter {
    pub name: String,
    pub role: String,
    pub matched_existing: bool,
    pub existing_id: Option<String>,
}

/// A summary written for a chapter or section.
#[derive(Clone, Debug, PartialEq)]
pub struct ChapterSummary {
    pub title: String,
    pub summary: String,
}

/// A request to rewrite some sections (all when no indices are given) with
/// new instructions.
#[derive(Clone, Debug, PartialEq)]
pub struct RevisionRequest {
    pub instructions: String,
    pub section_indices: Option<Vec<usize>>,
}

/// Where the agent sends its requests, and for which project.
#[derive(Clone, Debug, PartialEq)]
pub struct AgentConfig {
    pub api_endpoint: String,
    pub api_key: String,
    pub model: String,
    pub enable_thinking: bool,
    pub project_id: String,
}

/// The text a streamed language-model reply accumulated.
#[derive(Clone, Debug, PartialEq)]
pub struct LlmStreamResult {
    pub content: String,
}


// ---------------------------------------------------------------------------
// The agent's turns
// ---------------------------------------------------------------------------

/// The most model turns one agent run takes.
pub const MAX_AGENT_TURNS: u32 = 10;

/// How the next turn of the agent starts.
#[derive(Clone, Debug, PartialEq)]
pub enum TurnStart {
    /// The run was cancelled; it stops with an error.
    Cancelled,
    /// Send the conversation to the model.
    Request,
    /// The turns are used up; the run ends.
    Finished,
}

/// The agent run's count of turns taken.
#[derive(Clone, Debug, PartialEq)]
pub struct AgentTurns {
    pub turn: u32,
}

impl AgentTurns {
    /// A run before its first turn.
    pub fn new() -> (r: Self)
        ensures
            r.turn == 0,
    {
        AgentTurns { turn: 0 }
    }

    /// Starts a turn: the run ends once [`MAX_AGENT_TURNS`] were taken; a
    /// cancelled run stops; otherwise the turn is counted and the model is
    /// asked.
    pub fn begin_turn(&mut self, cancelled: bool) -> (r: TurnStart)
        ensures
            old(self).turn <= MAX_AGENT_TURNS ==> final(self).turn <= MAX_AGENT_TURNS,
            old(self).turn >= MAX_AGENT_TURNS ==> r is Finished && final(self).turn == old(self).turn,
            old(self).turn < MAX_AGENT_TURNS && cancelled ==> r is Cancelled && final(self).turn == old(self).turn,
            old(self).turn < MAX_AGENT_TURNS && !cancelled ==> r is Request && final(self).turn == old(self).turn + 1,
    {
        if self.turn >= MAX_AGENT_TURNS {
            TurnStart::Finished
        } else if cancelled {
            TurnStart::Cancelled
        } else {
            self.turn = self.turn + 1;
            TurnStart::Request
        }
    }
}

/// The error a cancelled run stops with.
pub fn cancelled_error() -> (r: AppError)
    ensures
        r matches AppError::LlmService(m) && m@ == "Cancelled"@,
{
    AppError::LlmService(owned("Cancelled"))
}

/// The index of the first failed tool result, if any.
pub open spec fn first_failure(results: Seq<Result<String, AppError>>) -> int
    decreases results.len(),
{
    if results.len() == 0 {
        -1
    } else {
        let p = first_failure(results.drop_last());
        if p >= 0 {
            p
        } else if results.last() is Err {
            results.len() - 1
        } else {
            -1
        }
    }
}

/// The error that ends a run after its tool calls: the first failed call's
/// name and error, if any call failed.
pub fn tool_failure(names: &[String], results: &[Result<String, AppError>]) -> (r: Option<AppError>)
    requires
        names@.len() == results@.len(),
    ensures
        first_failure(results@) < 0 ==> r is None,
        first_failure(results@) >= 0 ==> (r matches Some(AppError::LlmService(m)) && m@ == "Tool '"@
            + names@[first_failure(results@)]@ + "' failed: "@ + error_text(
            results@[first_failure(results@)]->Err_0,
        )),
{
    let mut i: usize = 0;
    while i < results.len()
        invariant
            i <= results@.len(),
            names@.len() == results@.len(),
            first_failure(results@.take(i as int)) < 0,
        decreases results@.len() - i,
    {
        proof {
            assert(results@.take(i + 1).drop_last() =~= results@.take(i as int));
            assert(results@.take(i + 1).last() == results@[i as int]);
        }
        match &results[i] {
            Err(e) => {
                proof {
                    lemma_first_failure_prefix(results@, i + 1, i as int);
                }
                let mut m = owned("Tool '");
                append_str(&mut m, names[i].as_str());
                append_str(&mut m, "' failed: ");
                let t = e.message();
                append_str(&mut m, t.as_str());
                return Some(AppError::LlmService(m));
            },
            Ok(_) => {},
        }
        i = i + 1;
    }
    assert(results@.take(i as int) =~= results@);
    None
}

proof fn lemma_first_failure_prefix(results: Seq<Result<String, AppError>>, k: int, p: int)
    requires
        0 <= k <= results.len(),
        p >= 0,
        first_failure(results.take(k)) == p,
    ensures
        first_failure(results) == p,
    decreases results.len() - k,
{
    if k < results.len() {
        assert(results.take(k + 1).drop_last() =~= results.take(k));
        lemma_first_failure_prefix(results, k + 1, p);
    } else {
        assert(results.take(k) =~= results);
    }
}

// ---------------------------------------------------------------------------
// Tool calls streamed by the model
// ---------------------------------------------------------------------------

/// A piece of a tool call in one streamed delta: the call's index, and
/// whichever of its id, function name and argument text came along.
#[derive(Clone, Debug, PartialEq)]
pub struct ToolCallFragment {
    pub index: Option<u64>,
    pub id: Option<String>,
    pub name: Option<String>,
    pub arguments: Option<String>,
}

/// A tool call as gathered so far.
#[derive(Clone, Debug, PartialEq)]
pub struct ToolCallParts {
    pub index: usize,
    pub call_id: String,
    pub name: String,
    pub arguments: String,
}

/// A gathered call as plain values: index, id, name, argument text.
pub type CallView = (usize, Seq<char>, Seq<char>, Seq<char>);

pub open spec fn call_view(c: ToolCallParts) -> CallView {
    (c.index, c.call_id@, c.name@, c.arguments@)
}

/// Position of the call with `index` among `calls`, or -1.
pub open spec fn call_position(calls: Seq<CallView>, index: usize) -> int
    decreases calls.len(),
{
    if calls.len() == 0 {
        -1
    } else if calls.last().0 == index {
        calls.len() - 1
    } else {
        call_position(calls.drop_last(), index)
    }
}

/// A present, nonempty text replaces `old`.
pub open spec fn refresh(old: Seq<char>, new: Option<Seq<char>>) -> Seq<char> {
    match new {
        Some(t) => if t.len() > 0 {
            t
        } else {
            old
        },
        None => old,
    }
}

/// The calls after one fragment: the call at its index (index 0 when it
/// has none) is found, or added with the fragment's id and name; a
/// nonempty id or name replaces the call's, and argument text is appended.
pub open spec fn apply_fragment(calls: Seq<CallView>, index: usize, id: Option<Seq<char>>, name: Option<Seq<char>>, args: Option<Seq<char>>) -> Seq<CallView> {
    let k = call_position(calls, index);
    let e0: CallView = if k >= 0 {
        calls[k]
    } else {
        (index, or_empty(id), or_empty(name), Seq::<char>::empty())
    };
    let e1: CallView = (index, refresh(e0.1, id), refresh(e0.2, name), e0.3 + or_empty(args));
    if k >= 0 {
        calls.update(k, e1)
    } else {
        calls.push(e1)
    }
}

/// The tool calls of a streamed reply, gathered fragment by fragment; no
/// two of them share an index.
#[derive(Debug)]
pub struct ToolCallAccumulator {
    calls: Vec<ToolCallParts>,
}

/// The calls as plain values.
pub open spec fn calls_view(v: Seq<ToolCallParts>) -> Seq<CallView> {
    v.map_values(|c: ToolCallParts| call_view(c))
}

/// The calls that got both an id and a name, in their order.
pub open spec fn complete_calls(calls: Seq<CallView>) -> Seq<CallView>
    decreases calls.len(),
{
    if calls.len() == 0 {
        calls
    } else {
        let rest = complete_calls(calls.drop_last());
        let c = calls.last();
        if c.1.len() > 0 && c.2.len() > 0 {
            rest.push(c)
        } else {
            rest
        }
    }
}

/// No two gathered calls share an index.
pub open spec fn distinct_indices(calls: Seq<CallView>) -> bool {
    forall|i: int, j: int| 0 <= i < j < calls.len() ==> calls[i].0 != calls[j].0
}

proof fn lemma_call_position(calls: Seq<CallView>, index: usize)
    ensures
        -1 <= call_position(calls, index) < calls.len(),
        call_position(calls, index) >= 0 ==> calls[call_position(calls, index)].0 == index,
        call_position(calls, index) < 0 ==> forall|j: int| 0 <= j < calls.len() ==> calls[j].0 != index,
    decreases calls.len(),
{
    if calls.len() > 0 && calls.last().0 != index {
        lemma_call_position(calls.drop_last(), index);
        let p = call_position(calls, index);
        if p >= 0 {
            assert(calls[p] == calls.drop_last()[p]);
        } else {
            assert forall|j: int| 0 <= j < calls.len() implies calls[j].0 != index by {
                if j < calls.len() - 1 {
                    assert(calls[j] == calls.drop_last()[j]);
                }
            }
        }
    }
}

fn refreshed(old: &String, new: &Option<String>) -> (r: String)
    ensures
        r@ == refresh(old@, opt_view(*new)),
{
    match new {
        Some(t) => if !t.as_str().is_empty() {
            t.clone()
        } else {
            old.clone()
        },
        None => old.clone(),
    }
}

impl ToolCallAccumulator {
    #[verifier::type_invariant]
    spec fn indices_distinct(self) -> bool {
        distinct_indices(calls_view(self.calls@))
    }

    /// The calls gathered so far, as plain values.
    pub closed spec fn gathered(self) -> Seq<CallView> {
        calls_view(self.calls@)
    }

    /// No calls yet.
    pub fn new() -> (r: Self)
        ensures
            r.gathered().len() == 0,
    {
        ToolCallAccumulator { calls: Vec::new() }
    }

    /// Takes in one fragment; see [`apply_fragment`].
    pub fn add(&mut self, f: &ToolCallFragment)
        ensures
            distinct_indices(final(self).gathered()),
            final(self).gathered() == apply_fragment(
                old(self).gathered(),
                match f.index {
                    Some(i) => i as usize,
                    None => 0usize,
                },
                opt_view(f.id),
                opt_view(f.name),
                opt_view(f.arguments),
            ),
    {
        proof {
            use_type_invariant(&*self);
        }
        let mut calls: Vec<ToolCallParts> = Vec::new();
        std::mem::swap(&mut calls, &mut self.calls);
        let index: usize = match f.index {
            Some(i) => i as usize,
            None => 0,
        };
        let ghost cv = calls_view(calls@);
        let mut k = calls.len();
        assert(cv.take(k as int) =~= cv);
        while k > 0 && calls[k - 1].index != index
            invariant
                k <= calls@.len(),
                cv == calls_view(calls@),
                call_position(cv, index) == call_position(cv.take(k as int), index),
            decreases k,
        {
            assert(cv.take(k as int).drop_last() =~= cv.take(k - 1));
            k = k - 1;
        }
        proof {
            lemma_call_position(cv, index);
            if k > 0 {
                assert(cv.take(k as int).last() == cv[k - 1]);
            }
        }
        let args_add = match &f.arguments {
            Some(a) => a.as_str(),
            None => "",
        };
        proof {
            reveal_strlit("");
        }
        if k > 0 {
            let e = &calls[k - 1];
            let mut args = e.arguments.clone();
            append_str(&mut args, args_add);
            let updated = ToolCallParts {
                index,
                call_id: refreshed(&e.call_id, &f.id),
                name: refreshed(&e.name, &f.name),
                arguments: args,
            };
            calls.set(k - 1, updated);
            proof {
                assert(calls_view(calls@) =~= cv.update(k - 1, call_view(updated)));
            }
        } else {
            let id0 = match &f.id {
                Some(x) => x.clone(),
                None => String::new(),
            };
            let name0 = match &f.name {
                Some(x) => x.clone(),
                None => String::new(),
            };
            let mut args = String::new();
            append_str(&mut args, args_add);
            let fresh = ToolCallParts {
                index,
                call_id: refreshed(&id0, &f.id),
                name: refreshed(&name0, &f.name),
                arguments: args,
            };
            calls.push(fresh);
            proof {
                assert(calls_view(calls@) =~= cv.push(call_view(fresh)));
            }
        }
        self.calls = calls;
    }

    /// The complete calls, in order of first appearance: those that got
    /// both an id and a name.
    pub fn finish(self) -> (r: Vec<ToolCallParts>)
        ensures
            calls_view(r@) == complete_calls(self.gathered()),
    {
        let mut r: Vec<ToolCallParts> = Vec::new();
        let ghost cv = calls_view(self.calls@);
        let mut calls = self.calls;
        let n = calls.len();
        let mut i: usize = 0;
        while i < n
            invariant
                n == calls@.len(),
                cv == calls_view(calls@),
                i <= n,
                calls_view(r@) == complete_calls(cv.take(i as int)),
            decreases n - i,
        {
            proof {
                assert(cv.take(i + 1).drop_last() =~= cv.take(i as int));
                assert(cv.take(i + 1).last() == cv[i as int]);
            }
            let c = &calls[i];
            if !c.call_id.as_str().is_empty() && !c.name.as_str().is_empty() {
                let ghost before = r@;
                r.push(ToolCallParts {
                    index: c.index,
                    call_id: c.call_id.clone(),
                    name: c.name.clone(),
                    arguments: c.arguments.clone(),
                });
                proof {
                    assert(calls_view(r@) =~= calls_view(before).push(cv[i as int]));
                }
            }
            i = i + 1;
        }
        assert(cv.take(n as int) =~= cv);
        r
    }
}

} // verus!
