//! One `nmcli` run, read with plain-text errors.
use vstd::prelude::*;
use crate::text::{chars_of, string_of, trim, trim_chars};
use crate::nm::reply::{join, outcome, output_or_empty, Reply, Step, StepView, strs};

verus! {

/// The output of a run, or its error as text: the error output where there
/// is any, else the output behind `nmcli failed: `.
pub open spec fn text_outcome(r: Reply) -> Result<Seq<char>, Seq<char>> {
    match r {
        Reply::SpawnFailed(e) => Err("Failed to run nmcli: "@ + e@),
        Reply::Exited { success, stdout, stderr } => {
            let out = trim(stdout@);
            let err = trim(stderr@);
            if success {
                Ok(out)
            } else if err.len() > 0 {
                Err(err)
            } else {
                Err("nmcli failed: "@ + out)
            }
        },
    }
}

/// The output of a run, or the empty text where it failed.
pub open spec fn text_or_empty(r: Reply) -> Seq<char> {
    match text_outcome(r) {
        Ok(out) => out,
        Err(_) => Seq::<char>::empty(),
    }
}

/// The output of a run, or its error as text.
pub fn text_outcome_of(r: &Reply) -> (o: Result<Vec<char>, String>)
    ensures
        match (o, text_outcome(*r)) {
            (Ok(a), Ok(b)) => a@ == b,
            (Err(a), Err(b)) => a@ == b,
            _ => false,
        },
{
    match r {
        Reply::SpawnFailed(e) => {
            let ec = chars_of(e.as_str());
            Err(join("Failed to run nmcli: ", ec.as_slice()))
        },
        Reply::Exited { success, stdout, stderr } => {
            let oc = chars_of(stdout.as_str());
            let out = trim_chars(oc.as_slice());
            if *success {
                return Ok(out);
            }
            let ec = chars_of(stderr.as_str());
            let err = trim_chars(ec.as_slice());
            if err.len() > 0 {
                Err(string_of(err.as_slice()))
            } else {
                Err(join("nmcli failed: ", out.as_slice()))
            }
        },
    }
}

/// The output of a run, or the empty text where it failed.
pub fn text_or_empty_of(r: &Reply) -> (o: Vec<char>)
    ensures
        o@ == text_or_empty(*r),
{
    match text_outcome_of(r) {
        Ok(out) => out,
        Err(_) => Vec::new(),
    }
}

/// A request that is one run of `args`, giving what it prints.
pub open spec fn output_at(args: Seq<Seq<char>>, rs: Seq<Reply>, at: int) -> (StepView<Seq<char>, Seq<char>>, int) {
    if at >= rs.len() {
        (StepView::Run(args), at)
    } else {
        match text_outcome(rs[at]) {
            Ok(out) => (StepView::Done(Ok(out)), at + 1),
            Err(e) => (StepView::Done(Err(e)), at + 1),
        }
    }
}

/// A request that is one run of `args`: it succeeds when the run does.
pub open spec fn unit_at(args: Seq<Seq<char>>, rs: Seq<Reply>, at: int) -> (StepView<(), Seq<char>>, int) {
    if at >= rs.len() {
        (StepView::Run(args), at)
    } else {
        match text_outcome(rs[at]) {
            Ok(_) => (StepView::Done(Ok(())), at + 1),
            Err(e) => (StepView::Done(Err(e)), at + 1),
        }
    }
}

/// One run of `args`, giving what it prints.
pub fn output_steps(args: Vec<String>, rs: &[Reply], at: usize) -> (r: (Step<String, String>, usize))
    ensures
        r.0.deep_view() == output_at(strs(args@), rs@, at as int).0,
        r.1 == output_at(strs(args@), rs@, at as int).1,
{
    if at >= rs.len() {
        return (Step::Run(args), at);
    }
    match text_outcome_of(&rs[at]) {
        Ok(out) => (Step::Done(Ok(string_of(out.as_slice()))), at + 1),
        Err(e) => (Step::Done(Err(e)), at + 1),
    }
}

/// One run of `args`.
pub fn unit_steps(args: Vec<String>, rs: &[Reply], at: usize) -> (r: (Step<(), String>, usize))
    ensures
        r.0.deep_view() == unit_at(strs(args@), rs@, at as int).0,
        r.1 == unit_at(strs(args@), rs@, at as int).1,
{
    if at >= rs.len() {
        return (Step::Run(args), at);
    }
    match text_outcome_of(&rs[at]) {
        Ok(_) => (Step::Done(Ok(())), at + 1),
        Err(e) => (Step::Done(Err(e)), at + 1),
    }
}


/// A run succeeds alike under both readings, with the same output.
pub proof fn lemma_same_output(r: Reply)
    ensures
        (outcome(r) is Ok) == (text_outcome(r) is Ok),
        outcome(r) is Ok ==> outcome(r)->Ok_0 == text_outcome(r)->Ok_0,
        output_or_empty(r) == text_or_empty(r),
{
}


} // verus!
