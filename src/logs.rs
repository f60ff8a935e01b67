//! Daily log files: where they live, what each line holds.

use vstd::prelude::*;
use crate::archive::{join_path, join_spec};

verus! {

/// The suffix that follows the message when a non-empty context is given.
pub open spec fn context_part(context: Option<Seq<char>>) -> Seq<char> {
    match context {
        Some(c) => if c.len() > 0 { " | "@ + c } else { Seq::empty() },
        None => Seq::empty(),
    }
}

/// One log line: `[<timestamp>] [<level>] [<tag>] <message>`, then
/// ` | <context>` when a non-empty context is given, then a newline.
pub open spec fn log_line_spec(
    timestamp: Seq<char>,
    level: Seq<char>,
    tag: Seq<char>,
    message: Seq<char>,
    context: Option<Seq<char>>,
) -> Seq<char> {
    "["@ + timestamp + "] ["@ + level + "] ["@ + tag + "] "@ + message + context_part(context) + "\n"@
}

/// The name of the log file for a day, `grain-link-<date>.log`.
pub open spec fn log_file_name_spec(date: Seq<char>) -> Seq<char> {
    "grain-link-"@ + date + ".log"@
}

pub open spec fn opt_view(o: Option<String>) -> Option<Seq<char>> {
    match o {
        Some(s) => Some(s@),
        None => None,
    }
}

/// Formats one log line.
pub fn log_line(timestamp: &str, level: &str, tag: &str, message: &str, context: Option<String>) -> (r: String)
    ensures
        r@ == log_line_spec(timestamp@, level@, tag@, message@, opt_view(context)),
{
    let mut r = "[".to_string();
    r.append(timestamp);
    r.append("] [");
    r.append(level);
    r.append("] [");
    r.append(tag);
    r.append("] ");
    r.append(message);
    match &context {
        Some(c) => {
            if c.as_str().unicode_len() > 0 {
                r.append(" | ");
                r.append(c.as_str());
            }
        },
        None => {},
    }
    r.append("\n");
    r
}

/// The log file name for the day written as `date`.
pub fn log_file_name(date: &str) -> (r: String)
    ensures
        r@ == log_file_name_spec(date@),
{
    let mut r = "grain-link-".to_string();
    r.append(date);
    r.append(".log");
    r
}

/// The path of the day's log file under the application's log directory
/// `log_dir`.
pub fn log_file_path(log_dir: &str, date: &str) -> (r: String)
    ensures
        r@ == join_spec(log_dir@, log_file_name_spec(date@)),
{
    let name = log_file_name(date);
    join_path(log_dir, name.as_str())
}

pub open spec fn no_newline(s: Seq<char>) -> bool {
    !s.contains('\n')
}

/// The positions of newlines in `s`.
pub open spec fn is_newline_at(s: Seq<char>, i: int) -> bool {
    0 <= i < s.len() && s[i] == '\n'
}

proof fn lemma_line_shape(
    timestamp: Seq<char>,
    level: Seq<char>,
    tag: Seq<char>,
    message: Seq<char>,
    context: Option<Seq<char>>,
)
    requires
        no_newline(timestamp),
        no_newline(level),
        no_newline(tag),
        no_newline(message),
        context matches Some(c) ==> no_newline(c),
    ensures
        ({
            let l = log_line_spec(timestamp, level, tag, message, context);
            &&& l.len() > 0
            &&& l.last() == '\n'
            &&& forall|i: int| 0 <= i < l.len() - 1 ==> l[i] != '\n'
        }),
{
    reveal_strlit("[");
    reveal_strlit("] [");
    reveal_strlit("] ");
    reveal_strlit(" | ");
    reveal_strlit("\n");
    let body = "["@ + timestamp + "] ["@ + level + "] ["@ + tag + "] "@ + message + context_part(context);
    let l = log_line_spec(timestamp, level, tag, message, context);
    assert(l == body + "\n"@);
    assert(!body.contains('\n')) by {
        assert(!"["@.contains('\n'));
        assert(!"] ["@.contains('\n'));
        assert(!"] "@.contains('\n'));
        assert(!context_part(context).contains('\n')) by {
            assert(!" | "@.contains('\n'));
            if let Some(c) = context {
                if c.len() > 0 {
                    lemma_concat_no_newline(" | "@, c);
                }
            }
        }
        lemma_concat_no_newline("["@, timestamp);
        lemma_concat_no_newline("["@ + timestamp, "] ["@);
        lemma_concat_no_newline("["@ + timestamp + "] ["@, level);
        lemma_concat_no_newline("["@ + timestamp + "] ["@ + level, "] ["@);
        lemma_concat_no_newline("["@ + timestamp + "] ["@ + level + "] ["@, tag);
        lemma_concat_no_newline("["@ + timestamp + "] ["@ + level + "] ["@ + tag, "] "@);
        lemma_concat_no_newline("["@ + timestamp + "] ["@ + level + "] ["@ + tag + "] "@, message);
        lemma_concat_no_newline("["@ + timestamp + "] ["@ + level + "] ["@ + tag + "] "@ + message, context_part(context));
    }
    assert forall|i: int| 0 <= i < l.len() - 1 implies l[i] != '\n' by {
        assert(l[i] == body[i]);
    }
}

proof fn lemma_concat_no_newline(a: Seq<char>, b: Seq<char>)
    requires
        no_newline(a),
        no_newline(b),
    ensures
        no_newline(a + b),
{
    assert forall|i: int| 0 <= i < (a + b).len() implies (a + b)[i] != '\n' by {
        if i < a.len() {
            assert((a + b)[i] == a[i]);
        } else {
            assert((a + b)[i] == b[i - a.len()]);
        }
    }
}

/// Appending the lines of two log calls to whatever the day's file held
/// adds exactly two lines, in call order:
/// the text after the old content is the first line then the second, and
/// its only newlines are the one closing each line. The fields are assumed
/// to hold no newline.
pub proof fn lemma_same_day_appends_two_lines(
    old_content: Seq<char>,
    t1: Seq<char>, level1: Seq<char>, tag1: Seq<char>, msg1: Seq<char>, ctx1: Option<Seq<char>>,
    t2: Seq<char>, level2: Seq<char>, tag2: Seq<char>, msg2: Seq<char>, ctx2: Option<Seq<char>>,
)
    requires
        no_newline(t1), no_newline(level1), no_newline(tag1), no_newline(msg1),
        ctx1 matches Some(c) ==> no_newline(c),
        no_newline(t2), no_newline(level2), no_newline(tag2), no_newline(msg2),
        ctx2 matches Some(c) ==> no_newline(c),
    ensures
        ({
            let l1 = log_line_spec(t1, level1, tag1, msg1, ctx1);
            let l2 = log_line_spec(t2, level2, tag2, msg2, ctx2);
            let added = (old_content + l1 + l2).subrange(old_content.len() as int, (old_content + l1 + l2).len() as int);
            &&& added.subrange(0, l1.len() as int) == l1
            &&& added.subrange(l1.len() as int, added.len() as int) == l2
            &&& forall|i: int| is_newline_at(added, i) <==> (i == l1.len() - 1 || i == added.len() - 1)
        }),
{
    lemma_line_shape(t1, level1, tag1, msg1, ctx1);
    lemma_line_shape(t2, level2, tag2, msg2, ctx2);
    let l1 = log_line_spec(t1, level1, tag1, msg1, ctx1);
    let l2 = log_line_spec(t2, level2, tag2, msg2, ctx2);
    let all = old_content + l1 + l2;
    let added = all.subrange(old_content.len() as int, all.len() as int);
    assert(added =~= l1 + l2);
    assert(added.subrange(0, l1.len() as int) =~= l1);
    assert(added.subrange(l1.len() as int, added.len() as int) =~= l2);
    assert forall|i: int| is_newline_at(added, i) <==> (i == l1.len() - 1 || i == added.len() - 1) by {
        if 0 <= i < l1.len() {
            assert(added[i] == l1[i]);
        } else if l1.len() <= i < added.len() {
            assert(added[i] == l2[i - l1.len()]);
        }
    }
}

} // verus!
