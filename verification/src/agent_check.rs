//! The in-memory file the agent readiness check works on.
//!
//! A model passes the check by calling three tools in order: create the
//! file, append the agreed content, verify it. Any other call is refused
//! and changes nothing.

use vstd::prelude::*;
use crate::text::{chars_equal, chars_of, concat_chars, lemma_utf8_len_mono, string_of, utf8_len, utf8_len_exec};

verus! {

broadcast use vstd::string::group_string_axioms;

/// The file the check works on.
pub open spec fn agent_file_name() -> Seq<char> {
    "readiness.txt"@
}

/// The content the model must write.
pub open spec fn agent_file_content() -> Seq<char> {
    "IB_AGENT_READY_7F2C"@
}

pub ghost struct AgentFileModel {
    pub created: bool,
    pub content: Seq<char>,
    pub verified: bool,
}

/// The state of the check's file.
#[derive(Clone, Debug, Default)]
pub struct AgentFileState {
    pub created: bool,
    pub content: String,
    pub verified: bool,
}

impl View for AgentFileState {
    type V = AgentFileModel;

    open spec fn view(&self) -> AgentFileModel {
        AgentFileModel { created: self.created, content: self.content@, verified: self.verified }
    }
}

/// The tool the check expects next; `None` once the file is verified.
pub open spec fn expected(m: AgentFileModel) -> Option<Seq<char>> {
    if !m.created {
        Some("create_file"@)
    } else if m.content.len() == 0 {
        Some("append_file"@)
    } else if !m.verified {
        Some("verify_file"@)
    } else {
        None
    }
}

/// What a tool call returned.
#[derive(Clone, Debug, PartialEq, Eq)]
pub enum AgentToolResult {
    /// Refused, with the reason.
    Rejected(String),
    /// The file was created.
    Created,
    /// The content was appended; the file now has this many bytes.
    Appended { bytes: usize },
    /// The file was checked: whether it holds exactly the agreed content,
    /// and what it holds.
    Verified { exact: bool, content: String },
}

pub ghost enum ResultModel {
    Rejected(Seq<char>),
    Created,
    Appended(nat),
    Verified(bool, Seq<char>),
}

impl View for AgentToolResult {
    type V = ResultModel;

    open spec fn view(&self) -> ResultModel {
        match self {
            AgentToolResult::Rejected(m) => ResultModel::Rejected(m@),
            AgentToolResult::Created => ResultModel::Created,
            AgentToolResult::Appended { bytes } => ResultModel::Appended(*bytes as nat),
            AgentToolResult::Verified { exact, content } => ResultModel::Verified(*exact, content@),
        }
    }
}

/// A call of tool `name` with the given `path` and `content` arguments
/// (empty when absent): the next state and the result.
pub open spec fn agent_step(m: AgentFileModel, name: Seq<char>, path: Seq<char>, content: Seq<char>) -> (AgentFileModel, ResultModel) {
    if expected(m) != Some(name) {
        (
            m,
            ResultModel::Rejected(
                "Expected "@ + match expected(m) {
                    Some(t) => t,
                    None => "the final AGENT_READY answer"@,
                } + " next, not "@ + name,
            ),
        )
    } else if path != agent_file_name() {
        (m, ResultModel::Rejected("path must equal readiness.txt"@))
    } else if name == "create_file"@ {
        (AgentFileModel { created: true, ..m }, ResultModel::Created)
    } else if name == "append_file"@ {
        if content != agent_file_content() {
            (m, ResultModel::Rejected("content must equal IB_AGENT_READY_7F2C"@))
        } else {
            let c = m.content + content;
            (AgentFileModel { content: c, ..m }, ResultModel::Appended(utf8_len(c)))
        }
    } else {
        let v = m.content == agent_file_content();
        (AgentFileModel { verified: v, ..m }, ResultModel::Verified(v, m.content))
    }
}

fn same(a: &str, b: &str) -> (r: bool)
    ensures
        r == (a@ == b@),
{
    chars_equal(&chars_of(a), &chars_of(b))
}

impl AgentFileState {
    /// The tool the check expects next.
    pub fn expected_tool(&self) -> (t: Option<&'static str>)
        ensures
            match expected(self@) {
                Some(n) => t matches Some(s) && s@ == n,
                None => t is None,
            },
    {
        if !self.created {
            Some("create_file")
        } else if self.content.as_str().is_empty() {
            Some("append_file")
        } else if !self.verified {
            Some("verify_file")
        } else {
            None
        }
    }

    /// Carry out a tool call.
    pub fn execute(&mut self, name: &str, path: &str, content: &str) -> (r: AgentToolResult)
        ensures
            final(self)@ == agent_step(old(self)@, name@, path@, content@).0,
            r@ == agent_step(old(self)@, name@, path@, content@).1,
    {
        let next = self.expected_tool();
        let matches_expected = match next {
            Some(t) => same(t, name),
            None => false,
        };
        if !matches_expected {
            let t = match next {
                Some(t) => t,
                None => "the final AGENT_READY answer",
            };
            let msg = string_of(
                &concat_chars(
                    &concat_chars(&concat_chars(&chars_of("Expected "), &chars_of(t)), &chars_of(" next, not ")),
                    &chars_of(name),
                ),
            );
            return AgentToolResult::Rejected(msg);
        }
        if !same(path, "readiness.txt") {
            return AgentToolResult::Rejected("path must equal readiness.txt".to_string());
        }
        if same(name, "create_file") {
            self.created = true;
            return AgentToolResult::Created;
        }
        if same(name, "append_file") {
            if !same(content, "IB_AGENT_READY_7F2C") {
                return AgentToolResult::Rejected("content must equal IB_AGENT_READY_7F2C".to_string());
            }
            let joined = string_of(&concat_chars(&chars_of(self.content.as_str()), &chars_of(content)));
            proof {
                reveal_strlit("IB_AGENT_READY_7F2C");
                assert(expected(self@) == Some("append_file"@));
                assert("append_file"@ != "create_file"@) by {
                    reveal_strlit("append_file");
                    reveal_strlit("create_file");
                    assert("append_file"@[0] != "create_file"@[0]);
                }
                assert("append_file"@ != "verify_file"@) by {
                    reveal_strlit("append_file");
                    reveal_strlit("verify_file");
                    assert("append_file"@[0] != "verify_file"@[0]);
                }
                assert(self.content@.len() == 0);
                let s = joined@;
                assert(s =~= content@);
                lemma_utf8_len_mono(s.push('a'), s.len() as int, s.len() as int + 1);
                assert(s.push('a').take(s.len() as int) =~= s);
            }
            let bytes = utf8_len_exec(&chars_of(joined.as_str()));
            self.content = joined;
            return AgentToolResult::Appended { bytes };
        }
        let exact = same(self.content.as_str(), "IB_AGENT_READY_7F2C");
        self.verified = exact;
        AgentToolResult::Verified { exact, content: self.content.clone() }
    }
}

/// A refused call changes nothing.
pub proof fn lemma_refused_call_changes_nothing(m: AgentFileModel, name: Seq<char>, path: Seq<char>, content: Seq<char>)
    requires
        agent_step(m, name, path, content).1 is Rejected,
    ensures
        agent_step(m, name, path, content).0 == m,
{
}

/// Creating, appending the agreed content and verifying, in that order,
/// takes a fresh file to a verified one, and nothing more is expected.
pub proof fn lemma_serial_chain_verifies()
    ensures
        ({
            let fresh = AgentFileModel { created: false, content: seq![], verified: false };
            let s1 = agent_step(fresh, "create_file"@, agent_file_name(), seq![]).0;
            let s2 = agent_step(s1, "append_file"@, agent_file_name(), agent_file_content()).0;
            let s3 = agent_step(s2, "verify_file"@, agent_file_name(), seq![]).0;
            &&& s3.verified
            &&& expected(s3) is None
        }),
{
    reveal_strlit("create_file");
    reveal_strlit("append_file");
    reveal_strlit("verify_file");
    reveal_strlit("readiness.txt");
    reveal_strlit("IB_AGENT_READY_7F2C");
    let fresh = AgentFileModel { created: false, content: seq![], verified: false };
    let s1 = agent_step(fresh, "create_file"@, agent_file_name(), seq![]).0;
    assert(s1.created && s1.content.len() == 0);
    assert(expected(s1) == Some("append_file"@));
    assert("append_file"@ != "create_file"@) by {
        assert("append_file"@[0] != "create_file"@[0]);
    }
    let s2 = agent_step(s1, "append_file"@, agent_file_name(), agent_file_content()).0;
    assert(s2.content =~= agent_file_content());
    assert(s2.content.len() > 0);
    assert(expected(s2) == Some("verify_file"@));
    assert("verify_file"@ != "create_file"@) by {
        assert("verify_file"@[0] != "create_file"@[0]);
    }
    assert("verify_file"@ != "append_file"@) by {
        assert("verify_file"@[0] != "append_file"@[0]);
    }
    let s3 = agent_step(s2, "verify_file"@, agent_file_name(), seq![]).0;
    assert(s3.verified);
}

/// The check only moves forward: a call creates, fills or verifies the
/// file, and never undoes an earlier step.
pub proof fn lemma_steps_only_advance(m: AgentFileModel, name: Seq<char>, path: Seq<char>, content: Seq<char>)
    ensures
        m.created ==> agent_step(m, name, path, content).0.created,
        m.content.len() > 0 ==> agent_step(m, name, path, content).0.content.len() > 0,
{
}

} // verus!
