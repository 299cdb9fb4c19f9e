use vstd::prelude::*;
use tokenizers::Tokenizer;

verus! {

/// `tokenizers::Tokenizer`, carried through as an opaque value.
#[verifier::external_type_specification]
#[verifier::external_body]
pub struct ExTokenizer(Tokenizer);

/// The text that the tokenizer sees for one record.
pub open spec fn formatted(anchor: Seq<char>, target: Seq<char>, context: Seq<char>) -> Seq<char> {
    "PHR1: "@ + anchor + " PHR2: "@ + target + " CON: "@ + context
}

/// Joins the two phrases and their context into the tokenizer's input.
pub fn format_text(anchor: &str, target: &str, context: &str) -> (r: String)
    ensures
        r@ == formatted(anchor@, target@, context@),
{
    let r = String::from_str("PHR1: ");
    let r = r.concat(anchor);
    let r = r.concat(" PHR2: ");
    let r = r.concat(target);
    let r = r.concat(" CON: ");
    r.concat(context)
}

/// Relies on `tokenizers::Tokenizer::encode` without special tokens, and
/// `Encoding::get_ids`: the ids of the text's tokens, or `None` where the
/// tokenizer reports an error. What the ids are depends on the tokenizer's
/// vocabulary and rules, so nothing is stated of them.
#[verifier::external_body]
pub(crate) fn encode_ids(tokenizer: &Tokenizer, text: String) -> (r: Option<Vec<u32>>) {
    match tokenizer.encode(text, false) {
        Ok(encoding) => Some(encoding.get_ids().to_vec()),
        Err(_) => None,
    }
}

/// Relies on `tokenizers::Tokenizer::get_vocab_size` with added tokens: the
/// size of the tokenizer's vocabulary.
#[verifier::external_body]
pub(crate) fn vocab_size(tokenizer: &Tokenizer) -> (r: usize) {
    tokenizer.get_vocab_size(true)
}

} // verus!
