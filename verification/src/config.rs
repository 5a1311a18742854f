//! The sections of a configuration file that the library reads: the rule
//! settings and the file settings. Reading and parsing the file is left to
//! the caller.

use vstd::prelude::*;
use crate::rules::custom::{lemma_texts_push, texts, DisableDirective};

verus! {

/// The `[rules]` section.
#[derive(Debug, Clone, Default)]
pub struct RulesConfig {
    /// Rules to disable.
    pub skip: Option<Vec<String>>,
    /// Phrases to flag, as rules of their own.
    pub custom_phrases: Option<Vec<String>>,
    /// Symbols the symbol rules leave alone.
    pub allow_symbols: Option<Vec<String>>,
}

/// The `[files]` section.
#[derive(Debug, Clone, Default)]
pub struct FilesConfig {
    /// Globs of paths to leave out of a run.
    pub exclude: Option<Vec<String>>,
}

/// The rule ids of the directives.
pub open spec fn disabled_ids(ds: Seq<DisableDirective>) -> Seq<Seq<char>> {
    Seq::new(ds.len(), |k: int| ds[k].rule_id@)
}

/// The rules a run skips: those skipped on the command line, then those the
/// configuration skips, then those the rules files disable.
pub fn skip_list(cli_skip: &[String], rules: Option<&RulesConfig>, disables: &[DisableDirective]) -> (r: Vec<String>)
    ensures
        texts(r@) == texts(cli_skip@) + match rules {
            Some(c) => match c.skip {
                Some(v) => texts(v@),
                None => seq![],
            },
            None => seq![],
        } + disabled_ids(disables@),
{
    let mut out: Vec<String> = Vec::new();
    let ghost mut want: Seq<Seq<char>> = seq![];
    append_texts(&mut out, cli_skip);
    match rules {
        Some(c) => match &c.skip {
            Some(v) => append_texts(&mut out, v.as_slice()),
            None => {},
        },
        None => {},
    }
    let ghost base = texts(out@);
    let mut k: usize = 0;
    while k < disables.len()
        invariant
            k <= disables@.len(),
            texts(out@) == base + disabled_ids(disables@).take(k as int),
        decreases disables@.len() - k,
    {
        let ghost before = out@;
        out.push(disables[k].rule_id.clone());
        proof {
            assert(out@ == before.push(out@.last()));
            lemma_texts_push(before, out@.last());
            assert(disabled_ids(disables@).take(k + 1) == disabled_ids(disables@).take(k as int).push(
                disables@[k as int].rule_id@,
            ));
            assert(texts(out@) =~= base + disabled_ids(disables@).take(k + 1));
        }
        k = k + 1;
    }
    assert(disabled_ids(disables@).take(k as int) == disabled_ids(disables@));
    out
}

/// Appends copies of the strings to `out`.
fn append_texts(out: &mut Vec<String>, more: &[String])
    ensures
        texts(final(out)@) == texts(old(out)@) + texts(more@),
{
    let ghost start = texts(out@);
    let mut k: usize = 0;
    while k < more.len()
        invariant
            k <= more@.len(),
            texts(out@) == start + texts(more@).take(k as int),
        decreases more@.len() - k,
    {
        let ghost before = out@;
        out.push(more[k].clone());
        proof {
            assert(out@ == before.push(out@.last()));
            lemma_texts_push(before, out@.last());
            assert(texts(more@).take(k + 1) == texts(more@).take(k as int).push(more@[k as int]@));
            assert(texts(out@) =~= start + texts(more@).take(k + 1));
        }
        k = k + 1;
    }
    assert(texts(more@).take(k as int) == texts(more@));
}

} // verus!
