//! The text exchanged with a language model for the last layer of the fix
//! pipeline: the request it is sent and how its reply is read.
use vstd::prelude::*;
use crate::history::{trim_chars, trim_end, trim_start};
use crate::resolve::ModelFix;
use crate::text::{chars_of, char_views, string_of};

verus! {

/// The instructions the model is given with every request.
pub const FIX_INSTRUCTIONS: &'static str = "You are a terminal error fixing assistant. Given an error message, provide a concise fix.\n\nRules:\n- Return ONLY the command(s) to fix the issue, one per line\n- If multiple steps needed, number them\n- Keep explanations very brief (one sentence max)\n- Focus on the most likely fix first\n- Consider the project context if provided\n\nFormat your response EXACTLY like this:\nCOMMAND: <the fix command>\nEXPLANATION: <brief one-sentence explanation>";

/// The request text for an error, with the project context where known.
pub open spec fn request_of(error: Seq<char>, context: Option<Seq<char>>) -> Seq<char> {
    match context {
        Some(c) => "Error: "@ + error + "\n\nProject context: "@ + c,
        None => "Error: "@ + error,
    }
}

/// The request text for an error.
pub fn fix_request(error: &str, context: Option<&str>) -> (r: String)
    ensures
        r@ == request_of(error@, match context {
            Some(c) => Some(c@),
            None => None,
        }),
{
    let mut r = String::from_str("Error: ");
    r.append(error);
    match context {
        Some(c) => {
            r.append("\n\nProject context: ");
            r.append(c);
        },
        None => {},
    }
    r
}

/// Lines finished so far, and the line being read, after `n` characters.
pub open spec fn line_state(s: Seq<char>, n: nat) -> (Seq<Seq<char>>, Seq<char>)
    decreases n,
{
    if n == 0 || n > s.len() {
        (Seq::empty(), Seq::empty())
    } else {
        let prev = line_state(s, (n - 1) as nat);
        if s[n - 1] == '\n' {
            (prev.0.push(prev.1), Seq::empty())
        } else {
            (prev.0, prev.1.push(s[n - 1]))
        }
    }
}

/// The lines of a text: split at each newline, without a last empty line.
pub open spec fn lines_of(s: Seq<char>) -> Seq<Seq<char>> {
    let st = line_state(s, s.len());
    if st.1.len() > 0 { st.0.push(st.1) } else { st.0 }
}

pub open spec fn trimmed(s: Seq<char>) -> Seq<char> {
    trim_end(trim_start(s))
}

pub open spec fn starts_with(s: Seq<char>, p: Seq<char>) -> bool {
    p.len() <= s.len() && s.subrange(0, p.len() as int) == p
}

/// Command and explanation read off the first `n` lines: the last
/// `COMMAND:` line and the last `EXPLANATION:` line decide, each trimmed.
pub open spec fn reply_state(ls: Seq<Seq<char>>, n: nat) -> (Seq<char>, Seq<char>)
    decreases n,
{
    if n == 0 || n > ls.len() {
        (Seq::empty(), Seq::empty())
    } else {
        let st = reply_state(ls, (n - 1) as nat);
        let l = trimmed(ls[n - 1]);
        if starts_with(l, "COMMAND:"@) {
            (trimmed(l.subrange(8, l.len() as int)), st.1)
        } else if starts_with(l, "EXPLANATION:"@) {
            (st.0, trimmed(l.subrange(12, l.len() as int)))
        } else {
            st
        }
    }
}

/// What a reply says: its `COMMAND:` and `EXPLANATION:` lines. A reply
/// without a command line, or with an empty command, is malformed: it gives
/// no command, and the whole text, as it came, is the explanation.
pub open spec fn reply_of(text: Seq<char>) -> (Seq<char>, Seq<char>) {
    let ls = lines_of(text);
    let st = reply_state(ls, ls.len());
    if st.0.len() == 0 {
        (Seq::empty(), text)
    } else {
        st
    }
}

fn split_lines(s: &Vec<char>) -> (r: Vec<Vec<char>>)
    ensures
        char_views(r@) == lines_of(s@),
{
    let mut done: Vec<Vec<char>> = Vec::new();
    let mut cur: Vec<char> = Vec::new();
    let mut i: usize = 0;
    while i < s.len()
        invariant
            i <= s@.len(),
            (char_views(done@), cur@) == line_state(s@, i as nat),
        decreases s@.len() - i,
    {
        let c = s[i];
        if c == '\n' {
            let ghost before = done@;
            let ghost line = cur@;
            done.push(cur);
            cur = Vec::new();
            assert(char_views(done@) =~= char_views(before).push(line));
        } else {
            cur.push(c);
        }
        i += 1;
    }
    if cur.len() > 0 {
        let ghost before = done@;
        let ghost last = cur@;
        done.push(cur);
        assert(char_views(done@) =~= char_views(before).push(last));
    }
    done
}

fn has_prefix(s: &Vec<char>, p: &str) -> (r: bool)
    ensures
        r == starts_with(s@, p@),
{
    let pc = chars_of(p);
    if pc.len() > s.len() {
        return false;
    }
    let mut i: usize = 0;
    while i < pc.len()
        invariant
            pc@ == p@,
            pc@.len() <= s@.len(),
            i <= pc@.len(),
            forall|j: int| 0 <= j < i ==> s@[j] == pc@[j],
        decreases pc@.len() - i,
    {
        if s[i] != pc[i] {
            assert(s@.subrange(0, pc@.len() as int)[i as int] != pc@[i as int]);
            return false;
        }
        i += 1;
    }
    assert(s@.subrange(0, pc@.len() as int) =~= pc@);
    true
}

fn tail_from(s: &Vec<char>, from: usize) -> (r: Vec<char>)
    requires
        from <= s@.len(),
    ensures
        r@ == s@.subrange(from as int, s@.len() as int),
{
    let mut out: Vec<char> = Vec::new();
    let mut i: usize = from;
    while i < s.len()
        invariant
            from <= i <= s@.len(),
            out@ == s@.subrange(from as int, i as int),
        decreases s@.len() - i,
    {
        out.push(s[i]);
        i += 1;
        assert(out@ =~= s@.subrange(from as int, i as int));
    }
    out
}

/// Reads a model's reply as a command and an explanation.
pub fn parse_fix_reply(text: &str) -> (r: ModelFix)
    ensures
        r.command@ == reply_of(text@).0,
        r.explanation@ == reply_of(text@).1,
{
    let cs = chars_of(text);
    let lines = split_lines(&cs);
    let ghost ls = lines_of(text@);
    let mut command: Vec<char> = Vec::new();
    let mut explanation: Vec<char> = Vec::new();
    let mut i: usize = 0;
    assert(command@ =~= Seq::<char>::empty());
    assert(explanation@ =~= Seq::<char>::empty());
    while i < lines.len()
        invariant
            ls == lines_of(text@),
            char_views(lines@) == ls,
            i <= lines@.len(),
            (command@, explanation@) == reply_state(ls, i as nat),
        decreases lines@.len() - i,
    {
        let l = trim_chars(&lines[i]);
        assert(ls[i as int] == lines@[i as int]@);
        proof {
            reveal_strlit("COMMAND:");
            reveal_strlit("EXPLANATION:");
        }
        if has_prefix(&l, "COMMAND:") {
            let rest = tail_from(&l, 8);
            command = trim_chars(&rest);
        } else if has_prefix(&l, "EXPLANATION:") {
            let rest = tail_from(&l, 12);
            explanation = trim_chars(&rest);
        }
        i += 1;
    }
    if command.len() == 0 {
        return ModelFix { command: String::new(), explanation: string_of(&cs) };
    }
    ModelFix { command: string_of(&command), explanation: string_of(&explanation) }
}

/// The request text for a command suggestion: the intent, with the
/// instruction to answer with one safe shell command.
pub open spec fn predict_request_of(intent: Seq<char>) -> Seq<char> {
    "Propose a single, safe shell command for intent: "@ + intent + "\nRespond concisely."@
}

/// The request text for a command suggestion.
pub fn predict_request(intent: &str) -> (r: String)
    ensures
        r@ == predict_request_of(intent@),
{
    let mut r = String::from_str("Propose a single, safe shell command for intent: ");
    r.append(intent);
    r.append("\nRespond concisely.");
    r
}

} // verus!
