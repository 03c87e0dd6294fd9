//! What is written into the prompt, told by the tools of a request.
use super::{block, signature, BLOCK_HEAD, BLOCK_TAIL};
use crate::json::{contents, Json};
use crate::openai_compat::ToolSpec;
use vstd::prelude::*;

verus! {

/// The signature of a tool has its type, name, description and parameters, each by itself:
/// what one of them is has no say in another. A description that is not there is empty, and so
/// is the object of parameters that are not. Nothing else is in the signature.
pub proof fn law_signature_keeps_every_part(tool: ToolSpec)
    ensures
        signature(tool) matches Json::Object(entry) && {
            &&& entry.dom() == set!["type"@, "function"@]
            &&& entry["type"@] == Json::String(tool.tool_type@)
            &&& entry["function"@] matches Json::Object(function)
            &&& function.dom() == set!["name"@, "description"@, "parameters"@]
            &&& function["name"@] == Json::String(tool.function.name@)
            &&& tool.function.description matches Some(description) ==> function["description"@]
                == Json::String(description@)
            &&& tool.function.description is None ==> function["description"@] == Json::String(
                Seq::empty(),
            )
            &&& tool.function.parameters matches Some(parameters) ==> function["parameters"@]
                == contents(parameters)
            &&& tool.function.parameters is None ==> function["parameters"@] == Json::Object(
                Map::empty(),
            )
        },
{
    super::laws::lemma_signature_keys();
    let entry = signature(tool)->Object_0;
    assert(entry.dom() == set!["type"@, "function"@]);
    let function = entry["function"@]->Object_0;
    assert(function.dom() == set!["name"@, "description"@, "parameters"@]);
}

/// The schema of the arguments survives: two tools with the same parameters have the same ones
/// in their signatures, however they differ otherwise, and tools whose signatures agree have
/// the same parameters.
pub proof fn law_schema_survives(a: ToolSpec, b: ToolSpec)
    requires
        a.function.parameters is Some,
        b.function.parameters is Some,
    ensures
        ({
            let schema_a = signature(a)->Object_0["function"@]->Object_0["parameters"@];
            let schema_b = signature(b)->Object_0["function"@]->Object_0["parameters"@];
            schema_a == schema_b <==> contents(a.function.parameters.unwrap()) == contents(
                b.function.parameters.unwrap(),
            )
        }),
{
    law_signature_keeps_every_part(a);
    law_signature_keeps_every_part(b);
}

/// The fixed parts of a block, which the models were tuned against.
pub proof fn law_fixed_parts()
    ensures
        BLOCK_HEAD@ == "\n\n# Tools\n\nYou may call one or more functions to assist with the user query.\n\nYou are provided with function signatures within <tools></tools> XML tags:\n<tools>\n"@,
        BLOCK_TAIL@ == "</tools>\n\nFor each function call, return a json object with function name and arguments within <tool_call></tool_call> XML tags:\n<tool_call>\n{\"name\": <function-name>, \"arguments\": <args-json-object>}\n</tool_call>"@,
{
}

/// A block without signatures is its two fixed parts, and a further signature takes a line
/// before the second of them.
pub proof fn law_a_further_signature(signatures: Seq<Seq<char>>, further: Seq<char>)
    ensures
        block(Seq::empty()) == BLOCK_HEAD@ + BLOCK_TAIL@,
        block(signatures).len() >= BLOCK_HEAD@.len() + BLOCK_TAIL@.len(),
        block(signatures.push(further)) == block(signatures).take(
            block(signatures).len() - BLOCK_TAIL@.len(),
        ) + further + seq!['\n'] + BLOCK_TAIL@,
{
    reveal_strlit("\n");
    assert(signatures.push(further).drop_last() == signatures);
    let before = block(signatures);
    assert(before.take(before.len() - BLOCK_TAIL@.len()) == BLOCK_HEAD@ + super::lines(
        signatures,
    ));
    assert(block(signatures.push(further)) == before.take(before.len() - BLOCK_TAIL@.len())
        + further + seq!['\n'] + BLOCK_TAIL@);
    assert(block(Seq::empty()) == BLOCK_HEAD@ + BLOCK_TAIL@);
}

} // verus!
