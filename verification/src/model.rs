use vstd::prelude::*;
use vstd::string::*;

verus! {

/// Files that a local copy of the embedding model must hold, in the order
/// they are read.
pub fn required_model_files() -> (files: Vec<String>)
    ensures
        files@.len() == 5,
        files@[0]@ == "model.onnx"@,
        files@[1]@ == "tokenizer.json"@,
        files@[2]@ == "config.json"@,
        files@[3]@ == "special_tokens_map.json"@,
        files@[4]@ == "tokenizer_config.json"@,
{
    let mut files: Vec<String> = Vec::new();
    files.push(String::from_str("model.onnx"));
    files.push(String::from_str("tokenizer.json"));
    files.push(String::from_str("config.json"));
    files.push(String::from_str("special_tokens_map.json"));
    files.push(String::from_str("tokenizer_config.json"));
    files
}

/// Which candidate model directory is used: the first that exists, in the
/// order the candidates are tried; `None` means the model is not installed
/// and search runs without embeddings.
pub fn choose_model_dir(exists: &Vec<bool>) -> (chosen: Option<usize>)
    ensures
        match chosen {
            Some(i) => i < exists@.len() && exists@[i as int] && forall|j: int|
                0 <= j < i ==> !exists@[j],
            None => forall|j: int| 0 <= j < exists@.len() ==> !exists@[j],
        },
{
    let n = exists.len();
    for i in 0..n
        invariant
            n == exists@.len(),
            forall|j: int| 0 <= j < i ==> !exists@[j],
    {
        if exists[i] {
            return Some(i);
        }
    }
    None
}

/// The model can be loaded from a directory only when every required file
/// is present there.
pub fn model_files_complete(present: &Vec<bool>) -> (complete: bool)
    ensures
        complete == forall|j: int| 0 <= j < present@.len() ==> present@[j],
{
    let n = present.len();
    for i in 0..n
        invariant
            n == present@.len(),
            forall|j: int| 0 <= j < i ==> present@[j],
    {
        if !present[i] {
            return false;
        }
    }
    true
}

} // verus!
