//! The command executor's decision policy.  Spawning the external process
//! happens outside the library; what came of it arrives here as an
//! `ExecOutcome`, and the policy below turns every such outcome into the
//! normalized `CommandOutput` the response body is built from.

use vstd::prelude::*;
use crate::text::is_ws_char;
use crate::text::is_whitespace;
use crate::text::str_chars;
use crate::text::chars_to_string;

verus! {

/// What running the configured command came to: either the process ran to
/// completion (successfully or not, with its captured streams), or it could
/// not be started at all.
pub enum ExecOutcome {
    Exited { success: bool, stdout: String, stderr: String },
    LaunchFailed { message: String },
}

/// The normalized result of one command run.  `status` is `"success"` or
/// `"error"`; exactly one of `output` and `error` carries content.
pub struct CommandOutput {
    pub status: String,
    pub output: String,
    pub error: Option<String>,
}

/// `s` without leading whitespace.
pub open spec fn ltrim(s: Seq<char>) -> Seq<char>
    decreases s.len(),
{
    if s.len() > 0 && is_ws_char(s[0]) {
        ltrim(s.drop_first())
    } else {
        s
    }
}

/// `s` without trailing whitespace.
pub open spec fn rtrim(s: Seq<char>) -> Seq<char>
    decreases s.len(),
{
    if s.len() > 0 && is_ws_char(s.last()) {
        rtrim(s.drop_last())
    } else {
        s
    }
}

/// `s` without leading and trailing whitespace.
pub open spec fn trim_of(s: Seq<char>) -> Seq<char> {
    rtrim(ltrim(s))
}

/// `s` with its leading and trailing whitespace removed.
pub fn trim_string(s: &String) -> (r: String)
    ensures
        r@ == trim_of(s@),
{
    let v = str_chars(s.as_str());
    let n = v.len();
    let mut start: usize = 0;
    proof {
        assert(s@.skip(0) =~= s@);
    }
    while start < n && is_whitespace(v[start])
        invariant
            start <= n,
            n == s@.len(),
            v@ == s@,
            ltrim(s@) == ltrim(s@.skip(start as int)),
        decreases n - start,
    {
        proof {
            assert(s@.skip(start as int).drop_first() =~= s@.skip(start as int + 1));
        }
        start = start + 1;
    }
    proof {
        if start == n {
            assert(s@.skip(start as int) =~= Seq::<char>::empty());
        }
        assert(ltrim(s@) == s@.skip(start as int));
        assert(s@.skip(start as int) =~= s@.subrange(start as int, n as int));
    }
    let mut end: usize = n;
    while end > start && is_whitespace(v[end - 1])
        invariant
            start <= end <= n,
            n == s@.len(),
            v@ == s@,
            ltrim(s@) == s@.subrange(start as int, n as int),
            rtrim(ltrim(s@)) == rtrim(s@.subrange(start as int, end as int)),
        decreases end,
    {
        proof {
            assert(s@.subrange(start as int, end as int).drop_last() =~= s@.subrange(
                start as int,
                end as int - 1,
            ));
        }
        end = end - 1;
    }
    proof {
        assert(trim_of(s@) == s@.subrange(start as int, end as int));
    }
    let mut out: Vec<char> = Vec::new();
    let mut k: usize = start;
    while k < end
        invariant
            start <= k <= end <= n,
            n == s@.len(),
            v@ == s@,
            out@ == s@.subrange(start as int, k as int),
        decreases end - k,
    {
        out.push(v[k]);
        proof {
            assert(out@ =~= s@.subrange(start as int, k as int + 1));
        }
        k = k + 1;
    }
    chars_to_string(&out)
}

/// The `status` field the policy assigns to an outcome.
pub open spec fn status_of(o: ExecOutcome) -> Seq<char> {
    match o {
        ExecOutcome::Exited { success, .. } => if success { "success"@ } else { "error"@ },
        ExecOutcome::LaunchFailed { .. } => "error"@,
    }
}

/// The `output` field: the trimmed standard output on success, empty
/// otherwise (standard output of a failed run is discarded).
pub open spec fn output_of(o: ExecOutcome) -> Seq<char> {
    match o {
        ExecOutcome::Exited { success, stdout, .. } => if success {
            trim_of(stdout@)
        } else {
            Seq::empty()
        },
        ExecOutcome::LaunchFailed { .. } => Seq::empty(),
    }
}

/// The `error` field: absent on success, the trimmed standard error on a
/// nonzero exit, and the launch-failure description when the process could
/// not be started.
pub open spec fn error_of(o: ExecOutcome) -> Option<Seq<char>> {
    match o {
        ExecOutcome::Exited { success, stderr, .. } => if success {
            Option::None
        } else {
            Option::Some(trim_of(stderr@))
        },
        ExecOutcome::LaunchFailed { message } => Option::Some(message@),
    }
}

impl CommandOutput {
    /// Exactly one of `output` and `error` carries content: a success has no
    /// error text, and an error reports nothing as output.
    pub open spec fn wf(self) -> bool {
        (self.status@ == "success"@ && self.error is None) || (self.status@ == "error"@
            && self.output@ == Seq::<char>::empty() && self.error is Some)
    }

    /// Applies the decision policy to what the process run came to.
    pub fn from_outcome(o: &ExecOutcome) -> (r: CommandOutput)
        ensures
            r.status@ == status_of(*o),
            r.output@ == output_of(*o),
            error_of(*o) is None ==> r.error is None,
            error_of(*o) matches Some(e) ==> r.error matches Some(t) && t@ == e,
            r.wf(),
    {
        match o {
            ExecOutcome::Exited { success, stdout, stderr } => {
                if *success {
                    CommandOutput {
                        status: String::from_str("success"),
                        output: trim_string(stdout),
                        error: Option::None,
                    }
                } else {
                    CommandOutput {
                        status: String::from_str("error"),
                        output: String::new(),
                        error: Option::Some(trim_string(stderr)),
                    }
                }
            },
            ExecOutcome::LaunchFailed { message } => CommandOutput {
                status: String::from_str("error"),
                output: String::new(),
                error: Option::Some(message.clone()),
            },
        }
    }
}

} // verus!
