//! The shell's mode and its prompt.

use vstd::prelude::*;
use vstd::string::StringExecFns;

verus! {

/// Where the shell stands: at the general prompt, or configuring the
/// named interface.
#[derive(Clone, PartialEq, Eq, PartialOrd, Ord, Hash, Debug)]
pub enum CliMode {
    General,
    Interface(String),
}

/// The prompt shown for a mode: the switch's name, the interface in
/// parentheses when one is being configured, then the prompt mark.
pub open spec fn prompt_spec(mode: CliMode) -> Seq<char> {
    match mode {
        CliMode::General => "blair-switch"@ + "#"@,
        CliMode::Interface(name) => "blair-switch"@ + "("@ + name@ + ")"@ + "#"@,
    }
}

pub fn generate_prompt(mode: &CliMode) -> (r: String)
    ensures
        r@ == prompt_spec(*mode),
{
    let mut prompt = String::new();
    prompt.append("blair-switch");
    match mode {
        CliMode::Interface(if_name) => {
            prompt.append("(");
            prompt.append(if_name.as_str());
            prompt.append(")");
        },
        _ => {},
    }
    prompt.append("#");
    proof {
        assert(prompt@ =~= prompt_spec(*mode));
    }
    prompt
}

} // verus!
