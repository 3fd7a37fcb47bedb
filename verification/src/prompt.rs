//! Prompt builder: combines the fixed instruction template with the staged
//! diff.

use vstd::prelude::*;
use vstd::string::StringExecFns;

verus! {

/// The full prompt sent to the completion service: the instruction template
/// followed by the diff appended verbatim, with no separator, truncation or
/// escaping.
pub fn build_prompt(template: &str, diff: &str) -> (r: String)
    ensures
        r@ == template@ + diff@,
{
    let mut out = template.to_owned();
    out.append(diff);
    out
}

/// An empty diff leaves the template unchanged: the prompt for an empty diff
/// is exactly the template text.
pub proof fn lemma_build_prompt_empty_diff(t: Seq<char>, d: Seq<char>)
    requires
        d.len() == 0,
    ensures
        t + d == t,
{
    assert(t + d =~= t);
}

} // verus!
