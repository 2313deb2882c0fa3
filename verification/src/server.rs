//! Decisions the server makes while it starts: which tensors it feeds and
//! reads, where a downloaded model is stored, and whether a download succeeded.
use vstd::prelude::*;

verus! {

/// Why the server cannot tell which tensor to feed or read.
#[derive(Debug, Clone, Copy, PartialEq, Eq, Structural)]
pub enum TensorNameError {
    /// No input name was configured and the model declares no input.
    NoInputs,
    /// No output name was configured and the model declares no output.
    NoOutputs,
}

impl TensorNameError {
    pub open spec fn spec_message(&self) -> Seq<char> {
        match self {
            TensorNameError::NoInputs => "Model has no inputs"@,
            TensorNameError::NoOutputs => "Model has no outputs"@,
        }
    }

    /// The text of the error.
    pub fn message(&self) -> (m: String)
        ensures
            m@ == self.spec_message(),
    {
        match self {
            TensorNameError::NoInputs => String::from_str("Model has no inputs"),
            TensorNameError::NoOutputs => String::from_str("Model has no outputs"),
        }
    }
}

/// The name a configured name or, failing that, the model's first declared name.
pub open spec fn chosen_name(configured: Option<String>, declared: Seq<String>) -> Option<Seq<char>> {
    match configured {
        Some(name) => Some(name@),
        None => if declared.len() > 0 {
            Some(declared[0]@)
        } else {
            None
        },
    }
}

fn choose_name(configured: &Option<String>, declared: &Vec<String>) -> (r: Option<String>)
    ensures
        match chosen_name(*configured, declared@) {
            Some(n) => r matches Some(s) && s@ == n,
            None => r is None,
        },
{
    match configured {
        Some(name) => Some(name.clone()),
        None => if declared.len() > 0 {
            Some(declared[0].clone())
        } else {
            None
        },
    }
}

/// The input tensor the server feeds: the configured name, else the model's first input.
pub fn resolve_input_name(configured: &Option<String>, model_inputs: &Vec<String>) -> (r: Result<String, TensorNameError>)
    ensures
        match chosen_name(*configured, model_inputs@) {
            Some(n) => r matches Ok(s) && s@ == n,
            None => r == Err::<String, TensorNameError>(TensorNameError::NoInputs),
        },
{
    match choose_name(configured, model_inputs) {
        Some(name) => Ok(name),
        None => Err(TensorNameError::NoInputs),
    }
}

/// The output tensor the server reads: the configured name, else the model's first output.
pub fn resolve_output_name(configured: &Option<String>, model_outputs: &Vec<String>) -> (r: Result<String, TensorNameError>)
    ensures
        match chosen_name(*configured, model_outputs@) {
            Some(n) => r matches Ok(s) && s@ == n,
            None => r == Err::<String, TensorNameError>(TensorNameError::NoOutputs),
        },
{
    match choose_name(configured, model_outputs) {
        Some(name) => Ok(name),
        None => Err(TensorNameError::NoOutputs),
    }
}

/// Whether `c` can occur in the hyphenated text of a UUID outside its hyphens.
pub open spec fn is_lower_hex(c: char) -> bool {
    ('0' <= c && c <= '9') || ('a' <= c && c <= 'f')
}

/// The hyphenated lowercase text of a UUID: 36 characters, hyphens at
/// positions 8, 13, 18 and 23, lowercase hexadecimal digits elsewhere.
pub open spec fn is_hyphenated_uuid(s: Seq<char>) -> bool {
    &&& s.len() == 36
    &&& forall|i: int|
        0 <= i < 36 ==> if i == 8 || i == 13 || i == 18 || i == 23 {
            s[i] == '-'
        } else {
            is_lower_hex(#[trigger] s[i])
        }
}

/// A fresh random (version 4) UUID in hyphenated form.
///
/// Calls `uuid::Uuid::new_v4` and formats it with its `Display`
/// implementation, which writes the lowercase hyphenated form; which UUID
/// comes back is random, so only its form is stated.
#[verifier::external_body]
fn random_uuid_text() -> (s: String)
    ensures
        is_hyphenated_uuid(s@),
{
    uuid::Uuid::new_v4().to_string()
}

/// The file name under which a model downloaded with identifier `id` is stored.
pub fn model_file_name(id: &str) -> (name: String)
    ensures
        name@ == "ort-superserve-model-"@ + id@ + ".onnx"@,
{
    String::from_str("ort-superserve-model-").concat(id).concat(".onnx")
}

/// A fresh file name for a downloaded model, made unique by a random UUID.
pub fn new_model_file_name() -> (name: String)
    ensures
        exists|id: Seq<char>|
            is_hyphenated_uuid(id) && name@ == "ort-superserve-model-"@ + id + ".onnx"@,
{
    let id = random_uuid_text();
    model_file_name(id.as_str())
}

/// Whether an HTTP status code reports success (it lies in `200..=299`).
pub fn download_succeeded(status: u16) -> (ok: bool)
    ensures
        ok == (200 <= status && status <= 299),
{
    200 <= status && status <= 299
}

/// Tensor names resolve to the configured name when there is one, and
/// otherwise to the first name the model declares, however many it declares;
/// names after the first never matter, and only a model that declares none,
/// with nothing configured, leaves no name.
pub proof fn lemma_name_resolution(configured: Option<String>, declared: Seq<String>, more: Seq<String>)
    ensures
        configured is None && declared.len() > 0 ==> chosen_name(configured, declared) == Some(
            declared[0]@,
        ),
        configured is Some ==> chosen_name(configured, declared) == Some(configured->0@),
        chosen_name(configured, declared) is None <==> (configured is None && declared.len() == 0),
        declared.len() > 0 ==> chosen_name(configured, declared) == chosen_name(
            configured,
            declared.take(1) + more,
        ),
{
}

} // verus!
