//! Code-completion prompting: cursor-context extraction and the prompt the
//! completion model is asked with.

use vstd::prelude::*;

use crate::service_types::{CompletionContext, CompletionResult};
use crate::stream_collector::StreamCollector;
use crate::text::{join_strings, join_with, range_strings, split_char, split_str, take_strings};

verus! {

pub struct CompletionService;

/// The context around a cursor: up to `lb` previous lines joined, the current
/// (incomplete) line, and the first `la` lines after the cursor joined. A
/// cursor at or past the end sees the whole text as "before". A cursor right
/// after a newline starts a fresh, empty current line.
pub open spec fn spec_extract(content: Seq<char>, cursor: int, lb: int, la: int) -> (
    Seq<char>,
    Seq<char>,
    Seq<char>,
) {
    let before = if cursor <= content.len() {
        content.subrange(0, cursor)
    } else {
        content
    };
    let after = if cursor < content.len() {
        content.subrange(cursor, content.len() as int)
    } else {
        Seq::empty()
    };
    let lines = split_char(before, '\n');
    let current = if before.len() > 0 && before.last() == '\n' {
        Seq::empty()
    } else {
        lines.last()
    };
    let prev_cnt = lines.len() - 1;
    let start = if prev_cnt >= lb {
        prev_cnt - lb
    } else {
        0
    };
    let prev = join_with(lines.subrange(start, prev_cnt as int), "\n"@);
    let after_lines = split_char(after, '\n');
    let taken = if la <= after_lines.len() {
        la
    } else {
        after_lines.len() as int
    };
    let after_ctx = join_with(after_lines.subrange(0, taken), "\n"@);
    (prev, current, after_ctx)
}

/// The completion prompt, literal scaffold around the extracted context.
pub open spec fn spec_completion_prompt(
    file_name: Seq<char>,
    language: Seq<char>,
    previous_context: Seq<char>,
    current_line: Seq<char>,
    after_context: Seq<char>,
) -> Seq<char> {
    "You are an AI code completion assistant. Complete the following "@ + language
        + " code.\n\nFile: "@ + file_name + "\nContext (previous lines):\n```"@ + language + "\n"@
        + previous_context + "\n```\n\nCurrent incomplete line: \""@ + current_line
        + "\"\n\nAfter cursor:\n```"@ + language + "\n"@ + after_context
        + "\n```\n\nProvide ONLY the completion text that should be inserted at the cursor position. Do not include the existing text or explanations.\nResponse should be plain text without markdown formatting.\nKeep the completion concise and relevant to the current context."@
}

impl CompletionService {
    pub fn new() -> (r: CompletionService)
        ensures
            true,
    {
        CompletionService
    }

    /// Extracts the context around a cursor position, as `spec_extract` says.
    pub fn extract_context(content: &str, cursor_pos: usize, lines_before: usize, lines_after:
        usize) -> (r: (String, String, String))
        ensures
            (r.0@, r.1@, r.2@) == spec_extract(
                content@,
                cursor_pos as int,
                lines_before as int,
                lines_after as int,
            ),
    {
        let n: usize = content.unicode_len();
        let before: &str = if cursor_pos <= n {
            content.substring_char(0, cursor_pos)
        } else {
            content
        };
        let after: &str = if cursor_pos < n {
            content.substring_char(cursor_pos, n)
        } else {
            ""
        };
        proof {
            reveal_strlit("");
            if cursor_pos >= n {
                assert(after@ =~= Seq::<char>::empty());
            }
            if cursor_pos > n {
                assert(before@ =~= content@);
            }
        }
        let before_lines = split_str(before, '\n');
        let bn: usize = before.unicode_len();
        let ends_nl: bool = bn > 0 && before.get_char(bn - 1) == '\n';
        let current: String = if ends_nl {
            String::new()
        } else {
            before_lines[before_lines.len() - 1].clone()
        };
        let prev_cnt: usize = before_lines.len() - 1;
        let start: usize = if prev_cnt >= lines_before {
            prev_cnt - lines_before
        } else {
            0
        };
        let prev_vec = range_strings(&before_lines, start, prev_cnt);
        let previous_context = join_strings(&prev_vec, "\n");
        let after_lines = split_str(after, '\n');
        let taken = take_strings(&after_lines, lines_after);
        let after_context = join_strings(&taken, "\n");
        proof {
            let lines = split_char(before@, '\n');
            assert(prev_vec@.map_values(|p: String| p@) =~= lines.subrange(
                start as int,
                prev_cnt as int,
            ));
            let alines = split_char(after@, '\n');
            let tk: int = if lines_after <= alines.len() {
                lines_after as int
            } else {
                alines.len() as int
            };
            assert(taken@.map_values(|p: String| p@) =~= alines.subrange(0, tk));
        }
        (previous_context, current, after_context)
    }

    /// Builds the completion prompt, as `spec_completion_prompt` says.
    pub fn build_prompt(
        &self,
        file_name: &str,
        language: &str,
        previous_context: &str,
        current_line: &str,
        after_context: &str,
    ) -> (r: String)
        ensures
            r@ == spec_completion_prompt(
                file_name@,
                language@,
                previous_context@,
                current_line@,
                after_context@,
            ),
    {
        let mut p = String::from_str(
            "You are an AI code completion assistant. Complete the following ",
        );
        p.append(language);
        p.append(" code.\n\nFile: ");
        p.append(file_name);
        p.append("\nContext (previous lines):\n```");
        p.append(language);
        p.append("\n");
        p.append(previous_context);
        p.append("\n```\n\nCurrent incomplete line: \"");
        p.append(current_line);
        p.append("\"\n\nAfter cursor:\n```");
        p.append(language);
        p.append("\n");
        p.append(after_context);
        p.append(
            "\n```\n\nProvide ONLY the completion text that should be inserted at the cursor position. Do not include the existing text or explanations.\nResponse should be plain text without markdown formatting.\nKeep the completion concise and relevant to the current context.",
        );
        p
    }

    /// Prepares a completion request for the surrounding cursor context and
    /// reports the (not yet model-filled) completion: an empty insertion.
    pub fn get_completion(&self, context: CompletionContext) -> (r: Result<
        CompletionResult,
        String,
    >)
        ensures
            r matches Ok(c) && c.completion@ == Seq::<char>::empty() && c.range is None,
    {
        let parts = Self::extract_context(
            context.file_content.as_str(),
            context.cursor_position,
            10,
            5,
        );
        let prompt = self.build_prompt(
            context.file_name.as_str(),
            context.language.as_str(),
            parts.0.as_str(),
            parts.1.as_str(),
            parts.2.as_str(),
        );
        let _request = StreamCollector::create_completion_request(
            String::from_str("code-star"),
            prompt,
        );
        Ok(CompletionResult { completion: String::new(), range: None })
    }
}

impl Default for CompletionService {
    fn default() -> (r: CompletionService)
        ensures
            true,
    {
        CompletionService::new()
    }
}

} // verus!
