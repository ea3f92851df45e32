//! Assembling the system prompt from its parts: the base instructions, the
//! loaded skill files, and the memory context.

use vstd::prelude::*;
use vstd::string::StrSliceExecFns;

use crate::text::concat_string;

verus! {

/// Build the full system prompt: the base, then a skills section when any
/// skills were loaded, then the memory context.
pub fn build_system_prompt(base_prompt: &str, skills_content: &str, memory_context: &str) -> (r:
    String)
    ensures
        r@ == base_prompt@ + (if skills_content@.len() > 0 {
            "\n\n## Skills\n\n"@ + skills_content@
        } else {
            Seq::<char>::empty()
        }) + memory_context@,
{
    let mut prompt = base_prompt.to_owned();
    if !skills_content.is_empty() {
        prompt = concat_string(prompt, "\n\n## Skills\n\n");
        prompt = concat_string(prompt, skills_content);
    }
    if !memory_context.is_empty() {
        prompt = concat_string(prompt, memory_context);
    }
    proof {
        if memory_context@.len() == 0 {
            assert(prompt@ =~= prompt@ + memory_context@);
        }
    }
    prompt
}

/// The combined text of the skills `[0, upto)`: each file under a comment
/// naming it, separated by rules.
pub open spec fn combined_skills(names: Seq<String>, contents: Seq<String>, upto: int) -> Seq<char>
    decreases upto,
{
    if upto <= 0 {
        Seq::empty()
    } else if upto == 1 {
        skill_block(names[0]@, contents[0]@)
    } else {
        combined_skills(names, contents, upto - 1) + "\n\n---\n\n"@ + skill_block(
            names[upto - 1]@,
            contents[upto - 1]@,
        )
    }
}

pub open spec fn skill_block(name: Seq<char>, content: Seq<char>) -> Seq<char> {
    "<!-- skill: "@ + name + " -->\n"@ + content
}

/// Combine loaded skill files, in order, into one skills document.
pub fn combine_skills(names: &Vec<String>, contents: &Vec<String>) -> (r: String)
    requires
        names@.len() == contents@.len(),
    ensures
        r@ == combined_skills(names@, contents@, names@.len() as int),
{
    let mut out = String::new();
    let mut i: usize = 0;
    while i < names.len()
        invariant
            i <= names@.len(),
            names@.len() == contents@.len(),
            out@ == combined_skills(names@, contents@, i as int),
        decreases names@.len() - i,
    {
        if i > 0 {
            out = concat_string(out, "\n\n---\n\n");
        }
        out = concat_string(out, "<!-- skill: ");
        out = concat_string(out, names[i].as_str());
        out = concat_string(out, " -->\n");
        out = concat_string(out, contents[i].as_str());
        i += 1;
    }
    out
}

} // verus!
