//! The settings of the proxy, and the part of them that governs translation.

use vstd::prelude::*;

verus! {

/// The settings of the proxy.
#[derive(Debug)]
pub struct Config {
    /// Where chat completions are asked for, in the order in which they are tried.
    pub chat_completions_urls: Vec<String>,
    /// Where the list of models is asked for, in the order in which they are tried.
    pub models_urls: Vec<String>,
    /// The key that goes with every request, if there is one.
    pub api_key: Option<String>,
    /// The model for requests that ask for reasoning.
    pub reasoning_model: Option<String>,
    /// The model for all other requests.
    pub completion_model: Option<String>,
    /// The upstream's name for each model that a client may name.
    pub model_map: Vec<(String, String)>,
    /// Terms to leave out of the system prompt.
    pub system_prompt_ignore_terms: Vec<String>,
    /// Whether requests and answers are logged in full.
    pub verbose: bool,
}

/// What the translation of a request goes by.
#[derive(Debug)]
pub struct TranslationPolicy {
    pub reasoning_model: Option<String>,
    pub completion_model: Option<String>,
    pub model_map: Vec<(String, String)>,
    pub ignore_terms: Vec<String>,
}

/// The copy of a list of strings.
pub(crate) fn copy_strings(list: &Vec<String>) -> (r: Vec<String>)
    ensures
        r@ == list@,
{
    let mut r: Vec<String> = Vec::new();
    let mut i: usize = 0;
    while i < list.len()
        invariant
            i <= list@.len(),
            r@ == list@.take(i as int),
        decreases list@.len() - i,
    {
        r.push(list[i].clone());
        i = i + 1;
        assert(list@.take(i as int) =~= list@.take(i - 1).push(list@[i - 1]));
    }
    assert(list@.take(i as int) =~= list@);
    r
}

/// The copy of a list of pairs.
fn copy_pairs(list: &Vec<(String, String)>) -> (r: Vec<(String, String)>)
    ensures
        r@ == list@,
{
    let mut r: Vec<(String, String)> = Vec::new();
    let mut i: usize = 0;
    while i < list.len()
        invariant
            i <= list@.len(),
            r@ == list@.take(i as int),
        decreases list@.len() - i,
    {
        let pair = &list[i];
        r.push((pair.0.clone(), pair.1.clone()));
        i = i + 1;
        assert(list@.take(i as int) =~= list@.take(i - 1).push(list@[i - 1]));
    }
    assert(list@.take(i as int) =~= list@);
    r
}

/// The copy of an optional string.
pub(crate) fn copy_text(s: &Option<String>) -> (r: Option<String>)
    ensures
        r == *s,
{
    match s {
        Some(s) => Some(s.clone()),
        None => None,
    }
}

/// The part of the settings that governs translation.
pub fn translation_policy(config: &Config) -> (policy: TranslationPolicy)
    ensures
        policy.reasoning_model == config.reasoning_model,
        policy.completion_model == config.completion_model,
        policy.model_map@ == config.model_map@,
        policy.ignore_terms@ == config.system_prompt_ignore_terms@,
{
    TranslationPolicy {
        reasoning_model: copy_text(&config.reasoning_model),
        completion_model: copy_text(&config.completion_model),
        model_map: copy_pairs(&config.model_map),
        ignore_terms: copy_strings(&config.system_prompt_ignore_terms),
    }
}

} // verus!
