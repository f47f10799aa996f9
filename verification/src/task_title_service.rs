//! Task-title prompting: validation, language selection, and the prompt the
//! model is asked with.

use vstd::prelude::*;

use crate::service_types::{TitleGenerationRequest, TitleGenerationResult};
use crate::text::{is_blank, str_is_blank, string_eq_str};

verus! {

pub struct TaskTitleService;

/// The title prompt: the user's message, the fixed guidelines and examples,
/// and the language instruction.
pub open spec fn spec_title_prompt(user_input: Seq<char>, language_instruction: Seq<char>) -> Seq<
    char,
> {
    "You are an AI assistant that generates concise, descriptive titles for tasks.\n\nUser's message: \""@
        + user_input
        + "\"\n\nGenerate a short, clear title (5-10 words) that captures the essence of what the user is asking or discussing.\n\nGuidelines:\n1. Keep it concise (5-10 words maximum)\n2. Use title case (capitalize first letter of main words)\n3. Be specific and descriptive\n4. Avoid generic titles like \"New Chat\" or \"Question\"\n5. Focus on the main topic or intent\n\nExamples:\n- \"Fix Login Bug\"\n- \"Create User Dashboard\"\n- \"Explain React Hooks\"\n- \"Database Schema Design\"\n- \"API Rate Limiting Issue\"\n\n"@
        + language_instruction
        + "\n\nProvide ONLY the title without any quotes, explanations, or additional formatting."@
}

/// The language instruction a request gets: Chinese when asked for `zh`,
/// English otherwise.
pub open spec fn spec_language_instruction(language: Option<Seq<char>>) -> Seq<char> {
    if language == Some("zh"@) {
        "Generate the title in Chinese."@
    } else {
        "Generate the title in English."@
    }
}

impl TaskTitleService {
    pub fn new() -> (r: TaskTitleService)
        ensures
            true,
    {
        TaskTitleService
    }

    /// Rejects blank input with the exact error; otherwise prepares the
    /// prompt in the requested language and reports the (not yet
    /// model-filled) result: an empty title.
    pub fn generate_title(&self, request: TitleGenerationRequest) -> (r: Result<
        TitleGenerationResult,
        String,
    >)
        ensures
            is_blank(request.user_input@) <==> r is Err,
            r matches Err(e) ==> e@ == "No user input provided"@,
            r matches Ok(t) ==> t.title@ == Seq::<char>::empty(),
    {
        if str_is_blank(request.user_input.as_str()) {
            return Err(String::from_str("No user input provided"));
        }
        let language_instruction: &str = match &request.language {
            Some(lang) => {
                if string_eq_str(lang, "zh") {
                    "Generate the title in Chinese."
                } else {
                    "Generate the title in English."
                }
            },
            None => "Generate the title in English.",
        };
        let _prompt = self.build_prompt(request.user_input.as_str(), language_instruction);
        Ok(TitleGenerationResult { title: String::new() })
    }

    /// Builds the title prompt, as `spec_title_prompt` says.
    pub fn build_prompt(&self, user_input: &str, language_instruction: &str) -> (r: String)
        ensures
            r@ == spec_title_prompt(user_input@, language_instruction@),
    {
        let mut p = String::from_str(
            "You are an AI assistant that generates concise, descriptive titles for tasks.\n\nUser's message: \"",
        );
        p.append(user_input);
        p.append(
            "\"\n\nGenerate a short, clear title (5-10 words) that captures the essence of what the user is asking or discussing.\n\nGuidelines:\n1. Keep it concise (5-10 words maximum)\n2. Use title case (capitalize first letter of main words)\n3. Be specific and descriptive\n4. Avoid generic titles like \"New Chat\" or \"Question\"\n5. Focus on the main topic or intent\n\nExamples:\n- \"Fix Login Bug\"\n- \"Create User Dashboard\"\n- \"Explain React Hooks\"\n- \"Database Schema Design\"\n- \"API Rate Limiting Issue\"\n\n",
        );
        p.append(language_instruction);
        p.append(
            "\n\nProvide ONLY the title without any quotes, explanations, or additional formatting.",
        );
        proof {
            assert(p@ =~= spec_title_prompt(user_input@, language_instruction@));
        }
        p
    }

    /// The model class title generation prefers.
    pub fn preferred_model_type() -> (r: &'static str)
        ensures
            r@ == "small"@,
    {
        "small"
    }
}

impl Default for TaskTitleService {
    fn default() -> (r: TaskTitleService)
        ensures
            true,
    {
        TaskTitleService::new()
    }
}

} // verus!
