//! One `nmcli` run: what it printed, and what the panel makes of it.
use vstd::prelude::*;
use crate::text::{
    ascii_lower, ascii_lower_chars, chars_of, contains, contains_str, string_of, trim, trim_chars,
};
use crate::nm::types::{NmError, NmErrorView};

verus! {

/// How one run of `nmcli` ended, with its output decoded as text.
#[derive(Clone, Debug)]
pub enum Reply {
    /// The program ran; `success` tells whether it exited with status 0.
    Exited { success: bool, stdout: String, stderr: String },
    /// The program could not be started; the text is the system's reason.
    SpawnFailed(String),
}

/// The next thing an `nmcli` conversation asks for, or how it ended.
#[derive(Debug)]
pub enum Step<T, E> {
    /// Run `nmcli` with these arguments and hand back its [`Reply`].
    Run(Vec<String>),
    /// The conversation is over.
    Done(Result<T, E>),
}

/// The text of a [`Step`].
pub enum StepView<V, W> {
    Run(Seq<Seq<char>>),
    Done(Result<V, W>),
}

/// The texts held by a vector of strings.
pub open spec fn strs(v: Seq<String>) -> Seq<Seq<char>> {
    v.map_values(|s: String| s@)
}

impl<T: DeepView, E: DeepView> DeepView for Step<T, E> {
    type V = StepView<T::V, E::V>;

    open spec fn deep_view(&self) -> StepView<T::V, E::V> {
        match self {
            Step::Run(args) => StepView::Run(strs(args@)),
            Step::Done(Ok(v)) => StepView::Done(Ok(v.deep_view())),
            Step::Done(Err(e)) => StepView::Done(Err(e.deep_view())),
        }
    }
}

/// The output of a run, or the error that it reports.
pub open spec fn outcome(r: Reply) -> Result<Seq<char>, NmErrorView> {
    match r {
        Reply::SpawnFailed(e) => Err(NmErrorView::Message("Failed to run nmcli: "@ + e@)),
        Reply::Exited { success, stdout, stderr } => {
            let out = trim(stdout@);
            let err = trim(stderr@);
            if success {
                Ok(out)
            } else if contains(ascii_lower(err), "secret"@) || contains(ascii_lower(err), "password"@)
                || contains(ascii_lower(err), "802-1x"@) {
                Err(NmErrorView::AuthRequired)
            } else if err.len() > 0 {
                Err(NmErrorView::Message(err))
            } else {
                Err(NmErrorView::Message("nmcli failed: "@ + out))
            }
        },
    }
}

/// The output of a run, or the empty text where the run failed.
pub open spec fn output_or_empty(r: Reply) -> Seq<char> {
    match outcome(r) {
        Ok(out) => out,
        Err(_) => Seq::<char>::empty(),
    }
}

/// `a` followed by `b`, as a string.
pub fn join(a: &str, b: &[char]) -> (s: String)
    ensures
        s@ == a@ + b@,
{
    let mut v = chars_of(a);
    let mut i: usize = 0;
    let ghost a0 = v@;
    while i < b.len()
        invariant
            i <= b@.len(),
            v@ == a0 + b@.take(i as int),
        decreases b@.len() - i,
    {
        v.push(b[i]);
        i += 1;
        assert(v@ =~= a0 + b@.take(i as int));
    }
    assert(b@.take(b@.len() as int) =~= b@);
    string_of(v.as_slice())
}

/// The output of a run, or the error that it reports.
pub fn outcome_of(r: &Reply) -> (o: Result<Vec<char>, NmError>)
    ensures
        match (o, outcome(*r)) {
            (Ok(a), Ok(b)) => a@ == b,
            (Err(a), Err(b)) => a.deep_view() == b,
            _ => false,
        },
{
    match r {
        Reply::SpawnFailed(e) => {
            let ec = chars_of(e.as_str());
            Err(NmError::Message(join("Failed to run nmcli: ", ec.as_slice())))
        },
        Reply::Exited { success, stdout, stderr } => {
            let oc = chars_of(stdout.as_str());
            let out = trim_chars(oc.as_slice());
            let ec = chars_of(stderr.as_str());
            let err = trim_chars(ec.as_slice());
            if *success {
                return Ok(out);
            }
            let low = ascii_lower_chars(err.as_slice());
            if contains_str(low.as_slice(), "secret") || contains_str(low.as_slice(), "password")
                || contains_str(low.as_slice(), "802-1x") {
                Err(NmError::AuthRequired)
            } else if err.len() > 0 {
                Err(NmError::Message(string_of(err.as_slice())))
            } else {
                Err(NmError::Message(join("nmcli failed: ", out.as_slice())))
            }
        },
    }
}

/// The output of a run, or the empty text where the run failed.
pub fn output_or_empty_of(r: &Reply) -> (o: Vec<char>)
    ensures
        o@ == output_or_empty(*r),
{
    match outcome_of(r) {
        Ok(out) => out,
        Err(_) => Vec::new(),
    }
}

} // verus!
