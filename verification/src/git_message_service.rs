//! Commit-message prompting: validation and the prompt the model is asked
//! with.

use vstd::prelude::*;

use crate::service_types::{GitMessageContext, GitMessageResult};
use crate::text::{is_blank, str_is_blank};

verus! {

pub struct GitMessageService;

/// The commit-message prompt: an optional task description, the diff, and
/// the fixed guidelines.
pub open spec fn spec_git_prompt(user_input: Option<Seq<char>>, diff_text: Seq<char>) -> Seq<
    char,
> {
    let user_section = match user_input {
        Some(input) => "User task description: \""@ + input + "\"\n"@,
        None => Seq::<char>::empty(),
    };
    "You are an AI assistant that generates concise and meaningful git commit messages following conventional commit format.\n\n"@
        + user_section + "File changes (git diff):\n"@ + diff_text
        + "\n\nGenerate a concise git commit message that follows these guidelines:\n1. Use conventional commit format: type(scope): description\n2. Types: feat, fix, docs, style, refactor, test, chore\n3. Keep the message under 72 characters for the subject line\n4. Be specific about what was changed based on the actual diff content\n5. Use imperative mood (e.g., \"add\", \"fix\", \"update\")\n\nExamples:\n- feat(auth): add user authentication system\n- fix(api): resolve data validation error\n- docs: update installation instructions\n- refactor: simplify user service logic\n\nProvide ONLY the commit message without any explanations or formatting."@
}

impl GitMessageService {
    pub fn new() -> (r: GitMessageService)
        ensures
            true,
    {
        GitMessageService
    }

    /// Rejects a blank diff with the exact error; otherwise prepares the
    /// prompt and reports the (not yet model-filled) result: an empty
    /// message.
    pub fn generate_commit_message(&self, context: GitMessageContext) -> (r: Result<
        GitMessageResult,
        String,
    >)
        ensures
            is_blank(context.diff_text@) <==> r is Err,
            r matches Err(e) ==> e@ == "No diff text provided"@,
            r matches Ok(g) ==> g.message@ == Seq::<char>::empty() && g.suggestions is None,
    {
        if str_is_blank(context.diff_text.as_str()) {
            return Err(String::from_str("No diff text provided"));
        }
        let _prompt = self.build_prompt(&context);
        Ok(GitMessageResult { message: String::new(), suggestions: None })
    }

    /// Builds the commit-message prompt, as `spec_git_prompt` says.
    pub fn build_prompt(&self, context: &GitMessageContext) -> (r: String)
        ensures
            r@ == spec_git_prompt(
                match context.user_input {
                    Some(i) => Some(i@),
                    None => None,
                },
                context.diff_text@,
            ),
    {
        let mut p = String::from_str(
            "You are an AI assistant that generates concise and meaningful git commit messages following conventional commit format.\n\n",
        );
        match &context.user_input {
            Some(input) => {
                p.append("User task description: \"");
                p.append(input.as_str());
                p.append("\"\n");
            },
            None => {},
        }
        p.append("File changes (git diff):\n");
        p.append(context.diff_text.as_str());
        p.append(
            "\n\nGenerate a concise git commit message that follows these guidelines:\n1. Use conventional commit format: type(scope): description\n2. Types: feat, fix, docs, style, refactor, test, chore\n3. Keep the message under 72 characters for the subject line\n4. Be specific about what was changed based on the actual diff content\n5. Use imperative mood (e.g., \"add\", \"fix\", \"update\")\n\nExamples:\n- feat(auth): add user authentication system\n- fix(api): resolve data validation error\n- docs: update installation instructions\n- refactor: simplify user service logic\n\nProvide ONLY the commit message without any explanations or formatting.",
        );
        proof {
            assert(p@ =~= spec_git_prompt(
                match context.user_input {
                    Some(i) => Some(i@),
                    None => None,
                },
                context.diff_text@,
            ));
        }
        p
    }

    /// The model commit-message generation prefers.
    pub fn preferred_model() -> (r: &'static str)
        ensures
            r@ == "gemini-2.5-flash-lite"@,
    {
        "gemini-2.5-flash-lite"
    }
}

impl Default for GitMessageService {
    fn default() -> (r: GitMessageService)
        ensures
            true,
    {
        GitMessageService::new()
    }
}

} // verus!
