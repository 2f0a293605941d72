//! The pieces of a gateway call that are plain computation: the prompt
//! sent for a word, and the JSON object cut out of what the model generated.
use vstd::prelude::*;
use vstd::string::*;
use crate::text::{cat3, owned};

verus! {

/// The instruction given to the model before every word.
pub const SYSTEM_INSTRUCTION: &'static str =
    "You are an expert linguist and lexicographer. Produce a single valid JSON object only.";

/// The output contract placed between the system instruction and the word.
pub const PROMPT_BODY: &'static str = "\n\nYou are an expert linguist and lexicographer. Your only job is to produce a single valid JSON object describing an English word.\n\n## OUTPUT CONTRACT — ABSOLUTE RULES\n\n1) Output must be a single JSON object only. No explanations, no code fences, no comments, no trailing commas, no nulls, no placeholders like \"<...>\", no markdown.\n2) All required fields must be present and non-empty strings or arrays (arrays may be empty but must exist).\n3) Use straight quotes (\") only. Escape any internal quotes per JSON.\n4) Use UTF-8. IPA must be valid IPA characters.\n\n## CONTENT REQUIREMENTS\n\n- \"word\": the surface/inflected form exactly as given by the user (case-preserve).\n- \"baseForm\": the lemma/root form in lowercase.\n- \"phonetic\": the IPA transcription in slashes, e.g., \"/kəˈmjuːnɪkeɪt/\". Use a standard, contemporary pronunciation (General American or widely accepted international), not a regional outlier.\n- \"difficulty\": one of \"beginner\", \"intermediate\", \"advanced\" based on typical frequency and morphology; choose conservatively.\n- \"language\": always \"english\".\n- \"meanings\": an array of 1-4 sense objects. Each sense MUST have a unique \"partOfSpeech\" value across the array.\n  • \"definition\": 30-80 words, clear, neutral, and sense-specific; do not repeat the headword mechanically.\n  • \"partOfSpeech\": one of [\"noun\",\"verb\",\"adjective\",\"adverb\",\"pronoun\",\"preposition\",\"conjunction\",\"interjection\",\"article\",\"determiner\",\"numeral\",\"participle\",\"gerund\"].\n  • \"exampleSentence\": natural, contemporary usage; keep under 25 words; do not quote famous works.\n  • \"grammarTip\": short usage guidance (morphology, typical complements, common errors, or register).\n  • \"synonyms\": 2-8 near-synonyms as single tokens or short phrases; none may duplicate the headword; keep sense-appropriate.\n  • \"antonyms\": 0-6 reasonable opposites; empty array allowed if none fit.\n  • \"translations\": object with keys [\"es\",\"fr\",\"de\",\"zh\",\"ja\",\"it\",\"pt\",\"ru\",\"ar\"]; each value a common single-word or brief phrase capturing THIS sense.\n\n## QUALITY & CONSISTENCY CHECKS (perform before finalizing):\n\n- Valid JSON when parsed strictly.\n- \"meanings\" present with 1-4 items and all \"partOfSpeech\" values unique.\n- No hallucinated morphology (e.g., correct lemma and typical inflections).\n- No repetitive or circular definitions.\n- Translations match each individual sense, not copied across blindly.\n- Arrays contain unique, lower-case items unless proper-case is standard.\n- No extra keys beyond the schema.\n\nWord: ";

/// What follows the word in a prompt.
pub const PROMPT_TAIL: &'static str = "\nRespond with the JSON object only.";

/// The two parts of a prompt: the system instruction and the user's word.
#[derive(Debug, Clone)]
pub struct PromptParts {
    pub system: String,
    pub user_word: String,
}

/// The prompt parts for `word`.
pub fn prompt_for(word: &str) -> (r: PromptParts)
    ensures
        r.system@ == SYSTEM_INSTRUCTION@,
        r.user_word@ == word@,
{
    PromptParts { system: owned(SYSTEM_INSTRUCTION), user_word: owned(word) }
}

/// The full prompt text for `prompt`.
pub fn build_prompt(prompt: &PromptParts) -> (r: String)
    ensures
        r@ == prompt.system@ + PROMPT_BODY@ + prompt.user_word@ + PROMPT_TAIL@,
{
    let mut s = cat3(prompt.system.as_str(), PROMPT_BODY, prompt.user_word.as_str());
    s.append(PROMPT_TAIL);
    s
}

/// The nesting depth of braces after the first `k` bytes of `b`. A closing
/// brace at depth zero closes nothing and is ignored.
pub open spec fn depth_at(b: Seq<u8>, k: int) -> nat
    decreases k,
{
    if k <= 0 {
        0
    } else {
        let d = depth_at(b, k - 1);
        if b[k - 1] == 123 {
            d + 1
        } else if b[k - 1] == 125 && d > 0 {
            (d - 1) as nat
        } else {
            d
        }
    }
}

/// An opening brace at depth zero.
pub open spec fn opens_at(b: Seq<u8>, j: int) -> bool {
    0 <= j < b.len() && b[j] == 123 && depth_at(b, j) == 0
}

/// A closing brace that brings the depth back to zero.
pub open spec fn closes_at(b: Seq<u8>, i: int) -> bool {
    0 <= i < b.len() && b[i] == 125 && depth_at(b, i) == 1
}

/// `b[j..=i]` is the first balanced object: `i` is the first closing brace
/// back at depth zero, and `j` the last opening brace at depth zero before it.
pub open spec fn object_span(b: Seq<u8>, j: int, i: int) -> bool {
    &&& closes_at(b, i)
    &&& forall|i2: int| 0 <= i2 < i ==> !#[trigger] closes_at(b, i2)
    &&& opens_at(b, j)
    &&& j < i
    &&& forall|j2: int| j < j2 < i ==> !#[trigger] opens_at(b, j2)
}

/// The bytes of the first balanced `{...}` in `s`, if there is one.
pub fn extract_json_bytes(s: &str) -> (r: Option<Vec<u8>>)
    ensures
        match r {
            Some(v) => exists|j: int, i: int|
                #[trigger] object_span(s.spec_bytes(), j, i) && v@ == s.spec_bytes().subrange(
                    j,
                    i + 1,
                ),
            None => forall|i: int| !#[trigger] closes_at(s.spec_bytes(), i),
        },
{
    let b = s.as_bytes();
    let ghost bs = b@;
    let n = b.len();
    let mut depth: usize = 0;
    let mut start: Option<usize> = None;
    let mut i: usize = 0;
    while i < n
        invariant
            bs == b@,
            bs == s.spec_bytes(),
            n == bs.len(),
            0 <= i <= n,
            depth <= i,
            depth == depth_at(bs, i as int),
            depth > 0 ==> start is Some,
            match start {
                None => forall|j: int| 0 <= j < i ==> !#[trigger] opens_at(bs, j),
                Some(st) => st < i && opens_at(bs, st as int) && forall|j: int|
                    st < j < i ==> !#[trigger] opens_at(bs, j),
            },
            forall|i2: int| 0 <= i2 < i ==> !#[trigger] closes_at(bs, i2),
        decreases n - i,
    {
        let c = b[i];
        if c == 123 {
            if depth == 0 {
                start = Some(i);
            }
            depth = depth + 1;
        } else if c == 125 && depth > 0 {
            if depth == 1 {
                let st = match start {
                    Some(st) => st,
                    None => 0,
                };
                assert(closes_at(bs, i as int));
                assert(object_span(bs, st as int, i as int));
                let mut out: Vec<u8> = Vec::new();
                let mut k: usize = st;
                while k <= i
                    invariant
                        bs == b@,
                        bs == s.spec_bytes(),
                        object_span(bs, st as int, i as int),
                        n == bs.len(),
                        st <= k <= i + 1,
                        i < n,
                        out@ == bs.subrange(st as int, k as int),
                    decreases i + 1 - k,
                {
                    out.push(b[k]);
                    k = k + 1;
                }
                return Some(out);
            }
            depth = depth - 1;
        }
        i = i + 1;
    }
    None
}

} // verus!
