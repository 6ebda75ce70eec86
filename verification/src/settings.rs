//! Settings: what the command line says, else what the configuration says, else
//! the default.

use vstd::prelude::*;

use crate::state::maybe_text;

verus! {

/// By how much vectors are pooled where nothing else is said.
pub const DEFAULT_POOL_FACTOR: usize = 2;

/// What the saved configuration says.
pub struct Config {
    /// The model to use.
    pub default_model: Option<String>,
    /// How many results to show.
    pub default_k: Option<usize>,
    /// How many lines of context to show.
    pub default_n: Option<usize>,
    /// Whether to show the content of results.
    pub verbose: bool,
    /// By how much to pool vectors.
    pub pool_factor: usize,
}

/// The model to use. `config` is the saved configuration, if it can be read.
pub fn resolve_model(cli_model: Option<&str>, config: &Option<Config>, default_model: &str) -> (r:
    String)
    ensures
        r@ == match (cli_model, config) {
            (Some(model), _) => model@,
            (None, Some(c)) => match maybe_text(c.default_model) {
                Some(model) => model,
                None => default_model@,
            },
            (None, None) => default_model@,
        },
        cli_model is Some ==> r@ == cli_model->0@,
        cli_model is None && config is Some && config->0.default_model is Some ==> r@
            == config->0.default_model->0@,
        cli_model is None && (config is None || config->0.default_model is None) ==> r@
            == default_model@,
{
    if let Some(model) = cli_model {
        return model.to_owned();
    }
    if let Some(c) = config {
        if let Some(model) = &c.default_model {
            return model.clone();
        }
    }
    default_model.to_owned()
}

/// How many results to show.
pub fn resolve_top_k(cli_k: Option<usize>, config: &Option<Config>, default: usize) -> (r: usize)
    ensures
        r == match (cli_k, config) {
            (Some(k), _) => k,
            (None, Some(c)) => match c.default_k {
                Some(k) => k,
                None => default,
            },
            (None, None) => default,
        },
        cli_k is Some ==> r == cli_k->0,
        cli_k is None && config is Some && config->0.default_k is Some ==> r
            == config->0.default_k->0,
        cli_k is None && (config is None || config->0.default_k is None) ==> r == default,
{
    if let Some(k) = cli_k {
        return k;
    }
    if let Some(c) = config {
        if let Some(k) = c.default_k {
            return k;
        }
    }
    default
}

/// How many lines of context to show.
pub fn resolve_context_lines(cli_n: Option<usize>, config: &Option<Config>, default: usize) -> (r:
    usize)
    ensures
        r == match (cli_n, config) {
            (Some(n), _) => n,
            (None, Some(c)) => match c.default_n {
                Some(n) => n,
                None => default,
            },
            (None, None) => default,
        },
        cli_n is Some ==> r == cli_n->0,
        cli_n is None && config is Some && config->0.default_n is Some ==> r
            == config->0.default_n->0,
        cli_n is None && (config is None || config->0.default_n is None) ==> r == default,
{
    if let Some(n) = cli_n {
        return n;
    }
    if let Some(c) = config {
        if let Some(n) = c.default_n {
            return n;
        }
    }
    default
}

/// Whether to show the content of results.
pub fn resolve_verbose(config: &Option<Config>) -> (r: bool)
    ensures
        r == match config {
            Some(c) => c.verbose,
            None => false,
        },
{
    match config {
        Some(c) => c.verbose,
        None => false,
    }
}

/// By how much to pool vectors. A factor of one does not pool; the command line
/// cannot ask for less.
pub fn resolve_pool_factor(
    cli_pool_factor: Option<usize>,
    no_pool: bool,
    config: &Option<Config>,
) -> (r: Option<usize>)
    ensures
        r == Some(
            if no_pool {
                1
            } else {
                match (cli_pool_factor, config) {
                    (Some(factor), _) => if factor == 0 {
                        1
                    } else {
                        factor
                    },
                    (None, Some(c)) => c.pool_factor,
                    (None, None) => DEFAULT_POOL_FACTOR,
                }
            },
        ),
        no_pool ==> r == Some(1usize),
        !no_pool && cli_pool_factor is Some && cli_pool_factor->0 >= 1 ==> r == cli_pool_factor,
        !no_pool && cli_pool_factor == Some(0usize) ==> r == Some(1usize),
        !no_pool && cli_pool_factor is None && config is Some ==> r == Some(config->0.pool_factor),
        !no_pool && cli_pool_factor is None && config is None ==> r == Some(2usize),
{
    if no_pool {
        return Some(1);
    }
    if let Some(factor) = cli_pool_factor {
        if factor < 1 {
            return Some(1);
        }
        return Some(factor);
    }
    if let Some(c) = config {
        return Some(c.pool_factor);
    }
    Some(DEFAULT_POOL_FACTOR)
}

/// Whether patterns are regular expressions: where that is asked for, and for a
/// text pattern that is not declared a fixed string.
pub fn effective_extended_regexp(
    extended_regexp: bool,
    has_text_pattern: bool,
    fixed_strings: bool,
) -> (r: bool)
    ensures
        r == (extended_regexp || (has_text_pattern && !fixed_strings)),
{
    extended_regexp || (has_text_pattern && !fixed_strings)
}

} // verus!
