//! The validation-and-repair engine: turns one parsed model output into a
//! conforming word entry, or a classified rejection.
use vstd::prelude::*;
use vstd::string::*;
use crate::json::{
    error_text, field, find_key, find_member, items_model, lemma_find_key,
    lemma_items_model, lemma_members_model, lemma_with_field_keys, members_model, parse_slice,
    put_member, to_serde, with_field, JsonModel, JsonValue,
};
use crate::text::{
    cat, cat3, decimal, decimal_text, lower_of, normalize_term, owned, same_text, to_lower,
    trim_slash_delimiters, trim_slashes, trim_spaces, trim_white_space,
};

verus! {

/// Why a model output was rejected.
#[derive(Debug)]
pub enum ValidationErrorType {
    SchemaValidation(String),
    MissingRequiredField(String),
    InvalidFieldValue { field: String, reason: String },
    DuplicatePartOfSpeech(String),
    InsufficientMeanings,
    InvalidPhonetic(String),
}

/// The model of a `ValidationErrorType`.
pub enum ValidationFault {
    SchemaValidation(Seq<char>),
    MissingRequiredField(Seq<char>),
    InvalidFieldValue(Seq<char>, Seq<char>),
    DuplicatePartOfSpeech(Seq<char>),
    InsufficientMeanings,
    InvalidPhonetic(Seq<char>),
}

impl View for ValidationErrorType {
    type V = ValidationFault;

    open spec fn view(&self) -> ValidationFault {
        match self {
            ValidationErrorType::SchemaValidation(m) => ValidationFault::SchemaValidation(m@),
            ValidationErrorType::MissingRequiredField(f) => ValidationFault::MissingRequiredField(
                f@,
            ),
            ValidationErrorType::InvalidFieldValue { field, reason } =>
                ValidationFault::InvalidFieldValue(field@, reason@),
            ValidationErrorType::DuplicatePartOfSpeech(p) =>
                ValidationFault::DuplicatePartOfSpeech(p@),
            ValidationErrorType::InsufficientMeanings => ValidationFault::InsufficientMeanings,
            ValidationErrorType::InvalidPhonetic(m) => ValidationFault::InvalidPhonetic(m@),
        }
    }
}

/// A rejection that the same output would meet again: a missing field, an
/// invalid enumerated value, a repeated part of speech, no meanings.
pub open spec fn is_final_fault(f: ValidationFault) -> bool {
    f is MissingRequiredField || f is InvalidFieldValue || f is DuplicatePartOfSpeech
        || f is InsufficientMeanings
}

/// The text of a rejection.
pub open spec fn fault_text(f: ValidationFault) -> Seq<char> {
    match f {
        ValidationFault::SchemaValidation(m) => "Schema validation failed: "@ + m,
        ValidationFault::MissingRequiredField(f) => "Missing required field: "@ + f,
        ValidationFault::InvalidFieldValue(f, r) => "Invalid value for "@ + f + ": "@ + r,
        ValidationFault::DuplicatePartOfSpeech(p) => "Duplicate part of speech: "@ + p,
        ValidationFault::InsufficientMeanings => "At least one meaning is required"@,
        ValidationFault::InvalidPhonetic(r) => "Invalid phonetic transcription: "@ + r,
    }
}

impl ValidationErrorType {
    /// Whether asking the model again may give an output that passes.
    pub fn is_retryable(&self) -> (r: bool)
        ensures
            r == !is_final_fault(self@),
    {
        match self {
            ValidationErrorType::SchemaValidation(_) => true,
            ValidationErrorType::InvalidPhonetic(_) => true,
            _ => false,
        }
    }

    /// The human-readable text of the rejection.
    pub fn describe(&self) -> (r: String)
        ensures
            r@ == fault_text(self@),
    {
        match self {
            ValidationErrorType::SchemaValidation(m) => cat(
                "Schema validation failed: ",
                m.as_str(),
            ),
            ValidationErrorType::MissingRequiredField(f) => cat(
                "Missing required field: ",
                f.as_str(),
            ),
            ValidationErrorType::InvalidFieldValue { field, reason } => {
                let mut s = cat3("Invalid value for ", field.as_str(), ": ");
                s.append(reason.as_str());
                s
            },
            ValidationErrorType::DuplicatePartOfSpeech(p) => cat(
                "Duplicate part of speech: ",
                p.as_str(),
            ),
            ValidationErrorType::InsufficientMeanings => owned("At least one meaning is required"),
            ValidationErrorType::InvalidPhonetic(r) => cat(
                "Invalid phonetic transcription: ",
                r.as_str(),
            ),
        }
    }
}

/// The first top-level field that an entry must have and `m` lacks.
pub open spec fn missing_top(m: Seq<(Seq<char>, JsonModel)>) -> Option<Seq<char>> {
    if find_key(m, "baseForm"@) is None {
        Some("baseForm"@)
    } else if find_key(m, "phonetic"@) is None {
        Some("phonetic"@)
    } else if find_key(m, "difficulty"@) is None {
        Some("difficulty"@)
    } else if find_key(m, "language"@) is None {
        Some("language"@)
    } else if find_key(m, "meanings"@) is None {
        Some("meanings"@)
    } else {
        None
    }
}

pub open spec fn is_difficulty(s: Seq<char>) -> bool {
    s == "beginner"@ || s == "intermediate"@ || s == "advanced"@
}

pub open spec fn accepted_difficulty(v: Option<JsonModel>) -> bool {
    match v {
        Some(JsonModel::Str(s)) => is_difficulty(s),
        _ => false,
    }
}

/// A transcription stripped of surrounding white space and slashes, then
/// wrapped in exactly one pair of slashes.
pub open spec fn wrap_phonetic(p: Seq<char>) -> Seq<char> {
    "/"@ + trim_slashes(trim_spaces(p)) + "/"@
}

/// Step one of the repair: the root must be an object; `word` is set to the
/// caller's form; the required top-level fields must be present; `language`
/// is forced, `difficulty` coerced and `phonetic` re-wrapped.
pub open spec fn fix_structure(v: JsonModel, word: Seq<char>) -> Result<
    Seq<(Seq<char>, JsonModel)>,
    ValidationFault,
> {
    match v {
        JsonModel::Object(m0) => {
            let m1 = with_field(m0, "word"@, JsonModel::Str(word));
            match missing_top(m1) {
                Some(f) => Err(ValidationFault::MissingRequiredField(f)),
                None => {
                    let m2 = with_field(m1, "language"@, JsonModel::Str("english"@));
                    let m3 = if accepted_difficulty(field(m2, "difficulty"@)) {
                        m2
                    } else {
                        with_field(m2, "difficulty"@, JsonModel::Str("intermediate"@))
                    };
                    match field(m3, "phonetic"@) {
                        Some(JsonModel::Str(p)) => Ok(
                            with_field(m3, "phonetic"@, JsonModel::Str(wrap_phonetic(p))),
                        ),
                        _ => Err(
                            ValidationFault::InvalidPhonetic("phonetic must be a string"@),
                        ),
                    }
                },
            }
        },
        _ => Err(ValidationFault::SchemaValidation("Expected JSON object at root"@)),
    }
}

fn missing(f: &str) -> (r: ValidationErrorType)
    ensures
        r@ == ValidationFault::MissingRequiredField(f@),
{
    ValidationErrorType::MissingRequiredField(owned(f))
}

fn is_difficulty_text(s: &str) -> (r: bool)
    ensures
        r == is_difficulty(s@),
{
    same_text(s, "beginner") || same_text(s, "intermediate") || same_text(s, "advanced")
}

/// Step one of the repair, on the members of the root object.
pub fn fix_basic_structure(v: JsonValue, surface_word: &str) -> (r: Result<
    Vec<(String, JsonValue)>,
    ValidationErrorType,
>)
    ensures
        match r {
            Ok(m) => fix_structure(v@, surface_word@) == Ok::<_, ValidationFault>(
                members_model(m@),
            ),
            Err(e) => fix_structure(v@, surface_word@) == Err::<Seq<(Seq<char>, JsonModel)>, _>(
                e@,
            ),
        },
{
    let mut es = match v {
        JsonValue::Object(es) => es,
        _ => {
            return Err(
                ValidationErrorType::SchemaValidation(owned("Expected JSON object at root")),
            );
        },
    };
    put_member(&mut es, "word", JsonValue::Str(owned(surface_word)));
    if find_member(&es, "baseForm").is_none() {
        return Err(missing("baseForm"));
    }
    if find_member(&es, "phonetic").is_none() {
        return Err(missing("phonetic"));
    }
    if find_member(&es, "difficulty").is_none() {
        return Err(missing("difficulty"));
    }
    if find_member(&es, "language").is_none() {
        return Err(missing("language"));
    }
    if find_member(&es, "meanings").is_none() {
        return Err(missing("meanings"));
    }
    put_member(&mut es, "language", JsonValue::Str(owned("english")));
    let accepted = match find_member(&es, "difficulty") {
        Some(i) => {
            proof {
                lemma_members_model(es@);
                lemma_find_key(members_model(es@), "difficulty"@);
            }
            match &es[i].1 {
                JsonValue::Str(d) => is_difficulty_text(d.as_str()),
                _ => false,
            }
        },
        None => false,
    };
    if !accepted {
        put_member(&mut es, "difficulty", JsonValue::Str(owned("intermediate")));
    }
    let wrapped = match find_member(&es, "phonetic") {
        Some(i) => {
            proof {
                lemma_members_model(es@);
                lemma_find_key(members_model(es@), "phonetic"@);
            }
            match &es[i].1 {
                JsonValue::Str(p) => {
                    let t = trim_white_space(p.as_str());
                    let inner = trim_slash_delimiters(t.as_str());
                    cat3("/", inner.as_str(), "/")
                },
                _ => {
                    return Err(
                        ValidationErrorType::InvalidPhonetic(owned("phonetic must be a string")),
                    );
                },
            }
        },
        None => {
            return Err(ValidationErrorType::InvalidPhonetic(owned("phonetic must be a string")));
        },
    };
    put_member(&mut es, "phonetic", JsonValue::Str(wrapped));
    Ok(es)
}

pub open spec fn is_part_of_speech(s: Seq<char>) -> bool {
    s == "noun"@ || s == "verb"@ || s == "adjective"@ || s == "adverb"@ || s == "pronoun"@ || s
        == "preposition"@ || s == "conjunction"@ || s == "interjection"@ || s == "article"@ || s
        == "determiner"@ || s == "numeral"@ || s == "participle"@ || s == "gerund"@
}

fn is_part_of_speech_text(s: &str) -> (r: bool)
    ensures
        r == is_part_of_speech(s@),
{
    same_text(s, "noun") || same_text(s, "verb") || same_text(s, "adjective") || same_text(
        s,
        "adverb",
    ) || same_text(s, "pronoun") || same_text(s, "preposition") || same_text(s, "conjunction")
        || same_text(s, "interjection") || same_text(s, "article") || same_text(s, "determiner")
        || same_text(s, "numeral") || same_text(s, "participle") || same_text(s, "gerund")
}

pub open spec fn texts(v: Seq<String>) -> Seq<Seq<char>> {
    v.map_values(|s: String| s@)
}

/// The normalized form of each string item, in order; other items are skipped.
pub open spec fn normalized_terms(items: Seq<JsonModel>) -> Seq<Seq<char>>
    decreases items.len(),
{
    if items.len() == 0 {
        Seq::empty()
    } else {
        let rest = normalized_terms(items.drop_last());
        match items.last() {
            JsonModel::Str(t) => rest.push(lower_of(trim_spaces(t))),
            _ => rest,
        }
    }
}

/// `xs` without empty strings and without repeats, keeping first occurrences
/// in their order.
pub open spec fn dedupe(xs: Seq<Seq<char>>) -> Seq<Seq<char>>
    decreases xs.len(),
{
    if xs.len() == 0 {
        Seq::empty()
    } else {
        let d = dedupe(xs.drop_last());
        let x = xs.last();
        if x.len() == 0 || d.contains(x) {
            d
        } else {
            d.push(x)
        }
    }
}

pub open spec fn term_models(xs: Seq<Seq<char>>) -> Seq<JsonModel> {
    Seq::new(xs.len(), |i: int| JsonModel::Str(xs[i]))
}

/// Member `key` of a meaning made a clean list of terms: the normalized,
/// de-duplicated strings of the array there, or an empty array when the
/// member is absent or not an array.
pub open spec fn with_terms(m: Seq<(Seq<char>, JsonModel)>, key: Seq<char>) -> Seq<
    (Seq<char>, JsonModel),
> {
    match field(m, key) {
        Some(JsonModel::Array(items)) => with_field(
            m,
            key,
            JsonModel::Array(term_models(dedupe(normalized_terms(items)))),
        ),
        _ => with_field(m, key, JsonModel::Array(Seq::empty())),
    }
}

fn contains_text(v: &Vec<String>, x: &String) -> (r: bool)
    ensures
        r == texts(v@).contains(x@),
{
    let mut i: usize = 0;
    while i < v.len()
        invariant
            0 <= i <= v@.len(),
            forall|j: int| 0 <= j < i ==> v@[j]@ != x@,
        decreases v.len() - i,
    {
        if v[i] == *x {
            assert(texts(v@)[i as int] == x@);
            return true;
        }
        i = i + 1;
    }
    proof {
        if texts(v@).contains(x@) {
            let j = choose|j: int| 0 <= j < texts(v@).len() && texts(v@)[j] == x@;
            assert(v@[j]@ == x@);
        }
    }
    false
}

/// Drops empty strings and repeats from already normalized terms, keeping
/// the first occurrence of each in its place.
pub fn dedupe_terms(terms: &Vec<String>) -> (r: Vec<String>)
    ensures
        texts(r@) == dedupe(texts(terms@)),
{
    let mut out: Vec<String> = Vec::new();
    let mut i: usize = 0;
    while i < terms.len()
        invariant
            0 <= i <= terms@.len(),
            texts(out@) == dedupe(texts(terms@).subrange(0, i as int)),
        decreases terms.len() - i,
    {
        let ghost pre = texts(terms@).subrange(0, i as int);
        let ghost next = texts(terms@).subrange(0, i as int + 1);
        assert(next.drop_last() =~= pre);
        let t = &terms[i];
        if !t.as_str().is_empty() && !contains_text(&out, t) {
            let c = String::from_str(t.as_str());
            out.push(c);
            assert(texts(out@) =~= texts(out@).drop_last().push(t@));
            assert(texts(out@).drop_last() =~= dedupe(pre));
        }
        i = i + 1;
    }
    assert(texts(terms@).subrange(0, terms@.len() as int) =~= texts(terms@));
    out
}

/// The normalized form of each string item of `items`, in order.
pub fn normalize_terms(items: &Vec<JsonValue>) -> (r: Vec<String>)
    ensures
        texts(r@) == normalized_terms(items_model(items@)),
{
    proof {
        lemma_items_model(items@);
    }
    let ghost all = items_model(items@);
    let mut out: Vec<String> = Vec::new();
    let mut i: usize = 0;
    while i < items.len()
        invariant
            0 <= i <= items@.len(),
            all == items_model(items@),
            all.len() == items@.len(),
            forall|j: int| 0 <= j < items@.len() ==> #[trigger] all[j] == items@[j]@,
            texts(out@) == normalized_terms(all.subrange(0, i as int)),
        decreases items.len() - i,
    {
        let ghost pre = all.subrange(0, i as int);
        assert(all.subrange(0, i as int + 1).drop_last() =~= pre);
        assert(all.subrange(0, i as int + 1).last() == items@[i as int]@);
        match &items[i] {
            JsonValue::Str(t) => {
                let n = normalize_term(t.as_str());
                out.push(n);
                assert(texts(out@) =~= texts(out@).drop_last().push(out@.last()@));
                assert(texts(out@).drop_last() =~= normalized_terms(pre));
            },
            _ => {},
        }
        i = i + 1;
    }
    assert(all.subrange(0, items@.len() as int) =~= all);
    out
}

fn term_values(terms: Vec<String>) -> (r: Vec<JsonValue>)
    ensures
        items_model(r@) == term_models(texts(terms@)),
{
    let ghost orig = terms@;
    let mut terms = terms;
    let n = terms.len();
    let mut out: Vec<JsonValue> = Vec::new();
    let mut k: usize = 0;
    while terms.len() > 0
        invariant
            orig.len() == n,
            0 <= k <= orig.len(),
            terms@ == orig.subrange(k as int, orig.len() as int),
            out@.len() == k,
            forall|j: int| 0 <= j < k ==> #[trigger] out@[j]@ == JsonModel::Str(orig[j]@),
        decreases terms.len(),
    {
        let t = terms.remove(0);
        out.push(JsonValue::Str(t));
        k = k + 1;
    }
    proof {
        lemma_items_model(out@);
        assert(items_model(out@) =~= term_models(texts(orig)));
    }
    out
}

/// Makes member `key` a clean list of terms, in the manner of `with_terms`.
pub fn fix_term_list(es: &mut Vec<(String, JsonValue)>, key: &str)
    ensures
        members_model(final(es)@) == with_terms(members_model(old(es)@), key@),
{
    proof {
        lemma_members_model(es@);
        lemma_find_key(members_model(es@), key@);
    }
    let cleaned = match find_member(es, key) {
        Some(i) => match &es[i].1 {
            JsonValue::Array(items) => {
                let normalized = normalize_terms(items);
                let unique = dedupe_terms(&normalized);
                term_values(unique)
            },
            _ => Vec::new(),
        },
        None => Vec::new(),
    };
    proof {
        if cleaned@.len() == 0 {
            assert(items_model(cleaned@) =~= Seq::<JsonModel>::empty());
        }
    }
    put_member(es, key, JsonValue::Array(cleaned));
}

/// The first field that a meaning must have and `m` lacks.
pub open spec fn missing_in_meaning(m: Seq<(Seq<char>, JsonModel)>) -> Option<Seq<char>> {
    if find_key(m, "definition"@) is None {
        Some("definition"@)
    } else if find_key(m, "exampleSentence"@) is None {
        Some("exampleSentence"@)
    } else if find_key(m, "grammarTip"@) is None {
        Some("grammarTip"@)
    } else if find_key(m, "translations"@) is None {
        Some("translations"@)
    } else {
        None
    }
}

/// The first of the nine language codes that translations `t` lack.
pub open spec fn missing_language(t: Seq<(Seq<char>, JsonModel)>) -> Option<Seq<char>> {
    if find_key(t, "es"@) is None {
        Some("es"@)
    } else if find_key(t, "fr"@) is None {
        Some("fr"@)
    } else if find_key(t, "de"@) is None {
        Some("de"@)
    } else if find_key(t, "zh"@) is None {
        Some("zh"@)
    } else if find_key(t, "ja"@) is None {
        Some("ja"@)
    } else if find_key(t, "it"@) is None {
        Some("it"@)
    } else if find_key(t, "pt"@) is None {
        Some("pt"@)
    } else if find_key(t, "ru"@) is None {
        Some("ru"@)
    } else if find_key(t, "ar"@) is None {
        Some("ar"@)
    } else {
        None
    }
}

/// The checks and fixes of one meaning at position `i`, given the parts of
/// speech of the meanings before it; on success, the fixed meaning and its
/// part of speech.
pub open spec fn fix_meaning(mv: JsonModel, i: nat, seen: Seq<Seq<char>>) -> Result<
    (JsonModel, Seq<char>),
    ValidationFault,
> {
    match mv {
        JsonModel::Object(mm) => match field(mm, "partOfSpeech"@) {
            Some(JsonModel::Str(p)) => {
                let pl = lower_of(p);
                if !is_part_of_speech(pl) {
                    Err(
                        ValidationFault::InvalidFieldValue(
                            "partOfSpeech"@,
                            "'"@ + p + "' is not a valid part of speech"@,
                        ),
                    )
                } else if seen.contains(pl) {
                    Err(ValidationFault::DuplicatePartOfSpeech(p))
                } else {
                    let m1 = with_field(mm, "partOfSpeech"@, JsonModel::Str(pl));
                    let m3 = with_terms(with_terms(m1, "synonyms"@), "antonyms"@);
                    match missing_in_meaning(m3) {
                        Some(f) => Err(
                            ValidationFault::MissingRequiredField(
                                f + " in meaning "@ + decimal(i),
                            ),
                        ),
                        None => match field(m3, "translations"@) {
                            Some(JsonModel::Object(t)) => match missing_language(t) {
                                Some(l) => Err(
                                    ValidationFault::MissingRequiredField(
                                        "translation for '"@ + l + "' in meaning "@ + decimal(i),
                                    ),
                                ),
                                None => Ok((JsonModel::Object(m3), pl)),
                            },
                            _ => Err(
                                ValidationFault::MissingRequiredField(
                                    "translation for '"@ + "es"@ + "' in meaning "@ + decimal(i),
                                ),
                            ),
                        },
                    }
                }
            },
            _ => Err(
                ValidationFault::MissingRequiredField(
                    "partOfSpeech"@ + " in meaning "@ + decimal(i),
                ),
            ),
        },
        _ => Err(
            ValidationFault::SchemaValidation("Meaning "@ + decimal(i) + " must be an object"@),
        ),
    }
}

fn missing_in(f: &str, i: usize) -> (r: ValidationErrorType)
    ensures
        r@ == ValidationFault::MissingRequiredField(f@ + " in meaning "@ + decimal(i as nat)),
{
    let d = decimal_text(i);
    ValidationErrorType::MissingRequiredField(cat3(f, " in meaning ", d.as_str()))
}

fn missing_translation(l: &str, i: usize) -> (r: ValidationErrorType)
    ensures
        r@ == ValidationFault::MissingRequiredField(
            "translation for '"@ + l@ + "' in meaning "@ + decimal(i as nat),
        ),
{
    let d = decimal_text(i);
    let mut s = cat3("translation for '", l, "' in meaning ");
    s.append(d.as_str());
    ValidationErrorType::MissingRequiredField(s)
}

fn first_missing_language(t: &Vec<(String, JsonValue)>) -> (r: Option<&'static str>)
    ensures
        match r {
            Some(l) => missing_language(members_model(t@)) == Some(l@),
            None => missing_language(members_model(t@)) is None,
        },
{
    if find_member(t, "es").is_none() {
        Some("es")
    } else if find_member(t, "fr").is_none() {
        Some("fr")
    } else if find_member(t, "de").is_none() {
        Some("de")
    } else if find_member(t, "zh").is_none() {
        Some("zh")
    } else if find_member(t, "ja").is_none() {
        Some("ja")
    } else if find_member(t, "it").is_none() {
        Some("it")
    } else if find_member(t, "pt").is_none() {
        Some("pt")
    } else if find_member(t, "ru").is_none() {
        Some("ru")
    } else if find_member(t, "ar").is_none() {
        Some("ar")
    } else {
        None
    }
}

/// Checks and fixes the meaning at position `idx`, in the manner of
/// `fix_meaning`.
pub fn fix_one_meaning(mv: JsonValue, idx: usize, seen: &Vec<String>) -> (r: Result<
    (JsonValue, String),
    ValidationErrorType,
>)
    ensures
        match r {
            Ok((m, p)) => fix_meaning(mv@, idx as nat, texts(seen@)) == Ok::<_, ValidationFault>(
                (m@, p@),
            ),
            Err(e) => fix_meaning(mv@, idx as nat, texts(seen@)) == Err::<
                (JsonModel, Seq<char>),
                _,
            >(e@),
        },
{
    let mut mm = match mv {
        JsonValue::Object(mm) => mm,
        _ => {
            let d = decimal_text(idx);
            return Err(
                ValidationErrorType::SchemaValidation(
                    cat3("Meaning ", d.as_str(), " must be an object"),
                ),
            );
        },
    };
    proof {
        lemma_members_model(mm@);
        lemma_find_key(members_model(mm@), "partOfSpeech"@);
    }
    let pos = match find_member(&mm, "partOfSpeech") {
        Some(k) => match &mm[k].1 {
            JsonValue::Str(p) => owned(p.as_str()),
            _ => {
                return Err(missing_in("partOfSpeech", idx));
            },
        },
        None => {
            return Err(missing_in("partOfSpeech", idx));
        },
    };
    let lowered = to_lower(pos.as_str());
    if !is_part_of_speech_text(lowered.as_str()) {
        return Err(
            ValidationErrorType::InvalidFieldValue {
                field: owned("partOfSpeech"),
                reason: cat3("'", pos.as_str(), "' is not a valid part of speech"),
            },
        );
    }
    if contains_text(seen, &lowered) {
        return Err(ValidationErrorType::DuplicatePartOfSpeech(pos));
    }
    put_member(&mut mm, "partOfSpeech", JsonValue::Str(owned(lowered.as_str())));
    fix_term_list(&mut mm, "synonyms");
    fix_term_list(&mut mm, "antonyms");
    if find_member(&mm, "definition").is_none() {
        return Err(missing_in("definition", idx));
    }
    if find_member(&mm, "exampleSentence").is_none() {
        return Err(missing_in("exampleSentence", idx));
    }
    if find_member(&mm, "grammarTip").is_none() {
        return Err(missing_in("grammarTip", idx));
    }
    proof {
        lemma_members_model(mm@);
        lemma_find_key(members_model(mm@), "translations"@);
    }
    match find_member(&mm, "translations") {
        Some(k) => match &mm[k].1 {
            JsonValue::Object(t) => match first_missing_language(t) {
                Some(l) => {
                    return Err(missing_translation(l, idx));
                },
                None => {},
            },
            _ => {
                return Err(missing_translation("es", idx));
            },
        },
        None => {
            return Err(missing_in("translations", idx));
        },
    }
    Ok((JsonValue::Object(mm), lowered))
}
/// The meanings checked and fixed in order; the first rejection stops the
/// run. On success, the fixed meanings and their parts of speech.
pub open spec fn fix_all(ms: Seq<JsonModel>) -> Result<
    (Seq<JsonModel>, Seq<Seq<char>>),
    ValidationFault,
>
    decreases ms.len(),
{
    if ms.len() == 0 {
        Ok((Seq::empty(), Seq::empty()))
    } else {
        match fix_all(ms.drop_last()) {
            Err(e) => Err(e),
            Ok((done, seen)) => match fix_meaning(ms.last(), (ms.len() - 1) as nat, seen) {
                Err(e) => Err(e),
                Ok((m, p)) => Ok((done.push(m), seen.push(p))),
            },
        }
    }
}

/// Step three on the meanings array: none is a final rejection; otherwise
/// the meanings fixed in order, or the first rejection.
pub open spec fn fix_meaning_list(ms: Seq<JsonModel>) -> Result<Seq<JsonModel>, ValidationFault> {
    if ms.len() == 0 {
        Err(ValidationFault::InsufficientMeanings)
    } else {
        match fix_all(ms) {
            Err(e) => Err(e),
            Ok((fixed, _)) => Ok(fixed),
        }
    }
}

/// Steps one to three of the repair: the fixed entry, or the first rejection.
pub open spec fn repair(v: JsonModel, word: Seq<char>) -> Result<JsonModel, ValidationFault> {
    match fix_structure(v, word) {
        Err(e) => Err(e),
        Ok(m) => match field(m, "meanings"@) {
            Some(JsonModel::Array(ms)) => match fix_meaning_list(ms) {
                Err(e) => Err(e),
                Ok(fixed) => Ok(
                    JsonModel::Object(with_field(m, "meanings"@, JsonModel::Array(fixed))),
                ),
            },
            _ => Err(ValidationFault::MissingRequiredField("meanings"@)),
        },
    }
}

proof fn lemma_fix_all_stops(ms: Seq<JsonModel>, k: int, e: ValidationFault)
    requires
        0 <= k <= ms.len(),
        fix_all(ms.subrange(0, k)) == Err::<(Seq<JsonModel>, Seq<Seq<char>>), _>(e),
    ensures
        fix_all(ms) == Err::<(Seq<JsonModel>, Seq<Seq<char>>), _>(e),
    decreases ms.len() - k,
{
    if k < ms.len() {
        assert(ms.subrange(0, k + 1).drop_last() =~= ms.subrange(0, k));
        lemma_fix_all_stops(ms, k + 1, e);
    } else {
        assert(ms.subrange(0, k) =~= ms);
    }
}

/// Checks and fixes every meaning, in the manner of `fix_meaning_list`.
pub fn validate_and_fix_meanings(meanings: Vec<JsonValue>) -> (r: Result<
    Vec<JsonValue>,
    ValidationErrorType,
>)
    ensures
        match r {
            Ok(f) => fix_meaning_list(items_model(meanings@)) == Ok::<_, ValidationFault>(
                items_model(f@),
            ),
            Err(e) => fix_meaning_list(items_model(meanings@)) == Err::<Seq<JsonModel>, _>(e@),
        },
{
    if meanings.len() == 0 {
        proof {
            lemma_items_model(meanings@);
        }
        return Err(ValidationErrorType::InsufficientMeanings);
    }
    let ghost orig = meanings@;
    let ghost all = items_model(meanings@);
    proof {
        lemma_items_model(meanings@);
    }
    let n = meanings.len();
    let mut ms = meanings;
    let mut done: Vec<JsonValue> = Vec::new();
    let mut seen: Vec<String> = Vec::new();
    let mut k: usize = 0;
    assert(all.subrange(0, 0) =~= Seq::<JsonModel>::empty());
    assert(items_model(done@) =~= Seq::<JsonModel>::empty());
    assert(texts(seen@) =~= Seq::<Seq<char>>::empty());
    while ms.len() > 0
        invariant
            orig == meanings@,
            all == items_model(orig),
            orig.len() == n,
            all.len() == n,
            forall|j: int| 0 <= j < n ==> #[trigger] all[j] == orig[j]@,
            0 <= k <= n,
            ms@ == orig.subrange(k as int, n as int),
            fix_all(all.subrange(0, k as int)) == Ok::<_, ValidationFault>(
                (items_model(done@), texts(seen@)),
            ),
        decreases ms.len(),
    {
        let mv = ms.remove(0);
        let ghost pre = all.subrange(0, k as int);
        assert(all.subrange(0, k as int + 1).drop_last() =~= pre);
        assert(all.subrange(0, k as int + 1).last() == mv@);
        match fix_one_meaning(mv, k, &seen) {
            Err(e) => {
                proof {
                    lemma_fix_all_stops(all, k as int + 1, e@);
                }
                return Err(e);
            },
            Ok((m, p)) => {
                let ghost done0 = done@;
                let ghost seen0 = seen@;
                done.push(m);
                seen.push(p);
                assert(done@.drop_last() =~= done0);
                assert(texts(seen@) =~= texts(seen0).push(p@));
            },
        }
        k = k + 1;
    }
    assert(all.subrange(0, n as int) =~= all);
    assert(fix_all(items_model(meanings@)) == Ok::<_, ValidationFault>(
        (items_model(done@), texts(seen@)),
    ));
    Ok(done)
}

/// Steps one to three of the repair, in the manner of `repair`.
pub fn repair_entry(v: JsonValue, surface_word: &str) -> (r: Result<JsonValue, ValidationErrorType>)
    ensures
        match r {
            Ok(x) => repair(v@, surface_word@) == Ok::<_, ValidationFault>(x@),
            Err(e) => repair(v@, surface_word@) == Err::<JsonModel, _>(e@),
        },
{
    let mut es = fix_basic_structure(v, surface_word)?;
    let ghost m = members_model(es@);
    proof {
        lemma_members_model(es@);
        lemma_find_key(m, "meanings"@);
    }
    let k = match find_member(&es, "meanings") {
        Some(k) => k,
        None => {
            return Err(missing("meanings"));
        },
    };
    let (key, value) = es.remove(k);
    let ms = match value {
        JsonValue::Array(ms) => ms,
        _ => {
            return Err(missing("meanings"));
        },
    };
    let fixed = validate_and_fix_meanings(ms)?;
    let ghost fm = items_model(fixed@);
    es.insert(k, (key, JsonValue::Array(fixed)));
    proof {
        lemma_members_model(es@);
        assert(members_model(es@) =~= m.update(k as int, ("meanings"@, JsonModel::Array(fm))));
    }
    Ok(JsonValue::Object(es))
}
/// jsonschema's compiled schema, held by a `Validator` for its lifetime.
#[verifier::external_type_specification]
#[verifier::external_body]
pub struct ExJsonSchema(jsonschema::JSONSchema);

/// The declared structure of a word entry (JSON Schema, draft 2020-12).
pub const WORD_SCHEMA: &'static str = r#"{
  "$schema": "https://json-schema.org/draft/2020-12/schema",
  "type": "object",
  "required": ["word", "baseForm", "phonetic", "difficulty", "language", "meanings"],
  "properties": {
    "word": { "type": "string", "minLength": 1 },
    "baseForm": { "type": "string", "minLength": 1 },
    "phonetic": { "type": "string", "minLength": 2 },
    "difficulty": { "enum": ["beginner", "intermediate", "advanced"] },
    "language": { "const": "english" },
    "meanings": {
      "type": "array",
      "minItems": 1,
      "maxItems": 4,
      "items": {
        "type": "object",
        "required": ["partOfSpeech", "definition", "exampleSentence", "grammarTip",
                     "synonyms", "antonyms", "translations"],
        "properties": {
          "partOfSpeech": { "enum": ["noun", "verb", "adjective", "adverb", "pronoun",
            "preposition", "conjunction", "interjection", "article", "determiner",
            "numeral", "participle", "gerund"] },
          "definition": { "type": "string", "minLength": 10, "maxLength": 1200 },
          "exampleSentence": { "type": "string", "minLength": 1, "maxLength": 400 },
          "grammarTip": { "type": "string", "minLength": 1, "maxLength": 600 },
          "synonyms": { "type": "array", "items": { "type": "string", "minLength": 1 } },
          "antonyms": { "type": "array", "items": { "type": "string", "minLength": 1 } },
          "translations": {
            "type": "object",
            "required": ["es", "fr", "de", "zh", "ja", "it", "pt", "ru", "ar"],
            "properties": {
              "es": { "type": "string", "minLength": 1 },
              "fr": { "type": "string", "minLength": 1 },
              "de": { "type": "string", "minLength": 1 },
              "zh": { "type": "string", "minLength": 1 },
              "ja": { "type": "string", "minLength": 1 },
              "it": { "type": "string", "minLength": 1 },
              "pt": { "type": "string", "minLength": 1 },
              "ru": { "type": "string", "minLength": 1 },
              "ar": { "type": "string", "minLength": 1 }
            },
            "additionalProperties": false
          }
        }
      }
    }
  }
}"#;

/// At most this many schema violations are reported.
pub const MAX_SCHEMA_MESSAGES: usize = 5;

/// Relies on jsonschema's `JSONSchema::options().with_draft(..).compile`,
/// which compiles a schema document or reports why it cannot.
#[verifier::external_body]
fn compile_schema(doc: &serde_json::Value) -> (r: Result<jsonschema::JSONSchema, String>) {
    match jsonschema::JSONSchema::options().with_draft(jsonschema::Draft::Draft202012).compile(
        doc,
    ) {
        Ok(s) => Ok(s),
        Err(e) => Err(e.to_string()),
    }
}

/// Messages joined with "; ".
pub open spec fn join_messages(xs: Seq<Seq<char>>) -> Seq<char>
    decreases xs.len(),
{
    if xs.len() == 0 {
        Seq::empty()
    } else if xs.len() == 1 {
        xs[0]
    } else {
        join_messages(xs.drop_last()) + "; "@ + xs.last()
    }
}

/// The first `MAX_SCHEMA_MESSAGES` of `xs`, or all of them when fewer.
pub open spec fn first_messages(xs: Seq<Seq<char>>) -> Seq<Seq<char>> {
    if xs.len() <= MAX_SCHEMA_MESSAGES {
        xs
    } else {
        xs.take(MAX_SCHEMA_MESSAGES as int)
    }
}

/// The violations that `WORD_SCHEMA` reports for `doc`, in the order and
/// wording in which jsonschema reports them.
pub uninterp spec fn schema_violations(doc: JsonModel) -> Seq<Seq<char>>;

/// The outcome of step four for a repaired entry, given the schema's
/// violations: the entry when there are none, else a rejection that reports
/// the first few.
pub open spec fn schema_outcome(v: JsonModel, errors: Seq<Seq<char>>) -> Result<
    JsonModel,
    ValidationFault,
> {
    if errors.len() == 0 {
        Ok(v)
    } else {
        Err(
            ValidationFault::SchemaValidation(
                join_messages(first_messages(errors)),
            ),
        )
    }
}

/// Step four of the repair, once the schema has spoken, in the manner of
/// `schema_outcome`.
pub fn schema_verdict(v: JsonValue, errors: &Vec<String>) -> (r: Result<
    JsonValue,
    ValidationErrorType,
>)
    ensures
        match r {
            Ok(x) => schema_outcome(v@, texts(errors@)) == Ok::<_, ValidationFault>(x@),
            Err(e) => schema_outcome(v@, texts(errors@)) == Err::<JsonModel, _>(e@),
        },
{
    if errors.len() == 0 {
        return Ok(v);
    }
    let n = if errors.len() < MAX_SCHEMA_MESSAGES {
        errors.len()
    } else {
        MAX_SCHEMA_MESSAGES
    };
    let ghost xs = texts(errors@);
    let mut out = String::new();
    let mut i: usize = 0;
    assert(xs.subrange(0, 0).len() == 0);
    while i < n
        invariant
            xs == texts(errors@),
            n <= errors@.len(),
            0 <= i <= n,
            out@ == join_messages(xs.subrange(0, i as int)),
        decreases n - i,
    {
        assert(xs.subrange(0, i as int + 1).drop_last() =~= xs.subrange(0, i as int));
        if i > 0 {
            out.append("; ");
        } else {
            assert(out@ + errors@[0]@ =~= errors@[0]@);
        }
        out.append(errors[i].as_str());
        i = i + 1;
    }
    assert(first_messages(xs) =~= xs.subrange(0, n as int));
    Err(ValidationErrorType::SchemaValidation(out))
}

/// The validation-and-repair engine, with `WORD_SCHEMA` compiled once.
pub struct Validator {
    schema: jsonschema::JSONSchema,
}

impl Validator {
    /// Compiles `WORD_SCHEMA`, the one schema every entry is held to. The
    /// argument is not read: the schema is fixed for the process.
    pub fn new(_schema_src: &str) -> (r: Result<Validator, String>) {
        let doc = match parse_slice(WORD_SCHEMA.as_bytes()) {
            Ok(d) => d,
            Err(e) => {
                return Err(error_text(&e));
            },
        };
        match compile_schema(&doc) {
            Ok(schema) => Ok(Validator { schema }),
            Err(m) => Err(m),
        }
    }

    /// Relies on jsonschema's `JSONSchema::validate` on the schema compiled
    /// from `WORD_SCHEMA` (the only one a `Validator` holds, and one without
    /// `$ref`, so validation ends): the violations, each as its location and
    /// kind. `to_serde` only changes the form of `v`, and the result depends
    /// on the characters and numbers that `v` holds alone.
    #[verifier::external_body]
    fn schema_errors(&self, v: &JsonValue) -> (r: Vec<String>)
        ensures
            texts(r@) == schema_violations(v@),
    {
        let doc = to_serde(v);
        let found: Vec<String> = match self.schema.validate(&doc) {
            Ok(()) => Vec::new(),
            Err(errs) => errs.map(|e| format!("at {}: {:?}", e.instance_path, e.kind)).collect(),
        };
        found
    }

    /// The schema's violations by `v`.
    pub fn apply_schema_validation(&self, v: &JsonValue) -> (r: Vec<String>)
        ensures
            texts(r@) == schema_violations(v@),
    {
        self.schema_errors(v)
    }

    /// Runs the whole engine on one parsed output: the named checks and
    /// fixes of `repair`, then the schema on the repaired entry.
    pub fn validate_and_fix(&self, v: JsonValue, surface_word: &str) -> (r: Result<
        JsonValue,
        ValidationErrorType,
    >)
        ensures
            checked_view(r) == checked(v@, surface_word@),
    {
        let fixed = repair_entry(v, surface_word)?;
        let errors = self.apply_schema_validation(&fixed);
        schema_verdict(fixed, &errors)
    }
}

pub open spec fn checked_view(r: Result<JsonValue, ValidationErrorType>) -> Result<
    JsonModel,
    ValidationFault,
> {
    match r {
        Ok(v) => Ok(v@),
        Err(e) => Err(e@),
    }
}

/// The whole engine: the named checks and fixes, then the schema.
pub open spec fn checked(v: JsonModel, word: Seq<char>) -> Result<JsonModel, ValidationFault> {
    match repair(v, word) {
        Err(e) => Err(e),
        Ok(x) => schema_outcome(x, schema_violations(x)),
    }
}

/// What a run of meanings that passed its checks has recorded: each is an
/// object whose part of speech, lowercased, is a valid category and is the
/// entry at its position among the parts of speech seen.
proof fn lemma_fix_all_seen(ms: Seq<JsonModel>, k: int)
    requires
        0 <= k <= ms.len(),
        fix_all(ms.subrange(0, k)) is Ok,
    ensures
        fix_all(ms.subrange(0, k))->Ok_0.1.len() == k,
        forall|j: int|
            0 <= j < k ==> {
                &&& #[trigger] ms[j] is Object
                &&& field(ms[j]->Object_0, "partOfSpeech"@) matches Some(JsonModel::Str(p))
                &&& fix_all(ms.subrange(0, k))->Ok_0.1[j] == lower_of(p)
                &&& is_part_of_speech(lower_of(p))
            },
    decreases k,
{
    if k > 0 {
        let pre = ms.subrange(0, k - 1);
        assert(ms.subrange(0, k).drop_last() =~= pre);
        assert(ms.subrange(0, k).last() == ms[k - 1]);
        lemma_fix_all_seen(ms, k - 1);
    } else {
        assert(ms.subrange(0, 0) =~= Seq::<JsonModel>::empty());
    }
}

/// A repeated part of speech: when every top-level field is present, the
/// transcription is a string, the meanings before position `k` pass their
/// checks, and meaning `k` names, up to case, the part of speech of an
/// earlier meaning `j`, the output is rejected as a duplicate, a rejection
/// that a retry cannot cure.
pub proof fn lemma_duplicate_part_of_speech(
    m0: Seq<(Seq<char>, JsonModel)>,
    word: Seq<char>,
    ms: Seq<JsonModel>,
    j: int,
    k: int,
    first: Seq<(Seq<char>, JsonModel)>,
    p0: Seq<char>,
    second: Seq<(Seq<char>, JsonModel)>,
    p1: Seq<char>,
)
    requires
        missing_top(m0) is None,
        field(m0, "phonetic"@) matches Some(JsonModel::Str(_)),
        field(m0, "meanings"@) == Some(JsonModel::Array(ms)),
        0 <= j < k < ms.len(),
        fix_all(ms.subrange(0, k)) is Ok,
        ms[j] == JsonModel::Object(first),
        field(first, "partOfSpeech"@) == Some(JsonModel::Str(p0)),
        ms[k] == JsonModel::Object(second),
        field(second, "partOfSpeech"@) == Some(JsonModel::Str(p1)),
        lower_of(p1) == lower_of(p0),
    ensures
        repair(JsonModel::Object(m0), word) == Err::<JsonModel, _>(
            ValidationFault::DuplicatePartOfSpeech(p1),
        ),
        is_final_fault(ValidationFault::DuplicatePartOfSpeech(p1)),
{
    reveal_strlit("word");
    reveal_strlit("language");
    reveal_strlit("difficulty");
    reveal_strlit("phonetic");
    reveal_strlit("meanings");
    assert("phonetic"@ != "word"@ && "phonetic"@ != "difficulty"@) by {
        assert("phonetic"@.len() != "word"@.len());
        assert("phonetic"@.len() != "difficulty"@.len());
    }
    assert("phonetic"@ != "language"@) by {
        assert("phonetic"@[0] != "language"@[0]);
    }
    assert("meanings"@ != "word"@ && "meanings"@ != "difficulty"@) by {
        assert("meanings"@.len() != "word"@.len());
        assert("meanings"@.len() != "difficulty"@.len());
    }
    assert("meanings"@ != "language"@) by {
        assert("meanings"@[0] != "language"@[0]);
    }
    assert("meanings"@ != "phonetic"@) by {
        assert("meanings"@[0] != "phonetic"@[0]);
    }
    let w = JsonModel::Str(word);
    let m1 = with_field(m0, "word"@, w);
    lemma_with_field_keys(m0, "word"@, w, "baseForm"@);
    lemma_with_field_keys(m0, "word"@, w, "phonetic"@);
    lemma_with_field_keys(m0, "word"@, w, "difficulty"@);
    lemma_with_field_keys(m0, "word"@, w, "language"@);
    lemma_with_field_keys(m0, "word"@, w, "meanings"@);
    assert(missing_top(m1) is None);
    let e = JsonModel::Str("english"@);
    let m2 = with_field(m1, "language"@, e);
    lemma_with_field_keys(m1, "language"@, e, "phonetic"@);
    lemma_with_field_keys(m1, "language"@, e, "meanings"@);
    let d = JsonModel::Str("intermediate"@);
    let m3 = if accepted_difficulty(field(m2, "difficulty"@)) {
        m2
    } else {
        with_field(m2, "difficulty"@, d)
    };
    lemma_with_field_keys(m2, "difficulty"@, d, "phonetic"@);
    lemma_with_field_keys(m2, "difficulty"@, d, "meanings"@);
    assert(field(m3, "phonetic"@) == field(m0, "phonetic"@));
    let p = field(m3, "phonetic"@)->Some_0->Str_0;
    let m4 = with_field(m3, "phonetic"@, JsonModel::Str(wrap_phonetic(p)));
    lemma_with_field_keys(m3, "phonetic"@, JsonModel::Str(wrap_phonetic(p)), "meanings"@);
    assert(fix_structure(JsonModel::Object(m0), word) == Ok::<_, ValidationFault>(m4));
    assert(field(m4, "meanings"@) == Some(JsonModel::Array(ms)));
    lemma_fix_all_seen(ms, k);
    let seen = fix_all(ms.subrange(0, k))->Ok_0.1;
    assert(seen[j] == lower_of(p0));
    assert(seen.contains(lower_of(p1)));
    let next = ms.subrange(0, k + 1);
    assert(next.drop_last() =~= ms.subrange(0, k));
    assert(next.last() == ms[k]);
    assert(fix_meaning(ms[k], k as nat, seen) == Err::<(JsonModel, Seq<char>), _>(
        ValidationFault::DuplicatePartOfSpeech(p1),
    ));
    assert(fix_all(next) == Err::<(Seq<JsonModel>, Seq<Seq<char>>), _>(
        ValidationFault::DuplicatePartOfSpeech(p1),
    ));
    lemma_fix_all_stops(ms, k + 1, ValidationFault::DuplicatePartOfSpeech(p1));
}

} // verus!
