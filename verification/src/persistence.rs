use crate::text::{
    back_run_len, chars_of, decimal, decimal_string, digits_value, lemma_decimal_digits, parse_u32,
    parse_u32_at, parse_unsigned, run_len, trim, trim_range, CharClass,
};
use std::path::PathBuf;
use vstd::prelude::*;

verus! {

#[verifier::external_type_specification]
#[verifier::external_body]
pub struct ExPathBuf(PathBuf);

/// `PathBuf::clone`, which the derived `Clone` of `HighScoreStore` calls.
/// Nothing is claimed of the copy it returns.
pub assume_specification[ <PathBuf as Clone>::clone ](p: &PathBuf) -> PathBuf;

/// Name of the high-score file in the working directory.
pub const HIGH_SCORE_FILE: &'static str = ".rust_dino_high_score";

/// Where the best score is kept between runs.
#[derive(Debug, Clone)]
pub struct HighScoreStore {
    path: PathBuf,
}

/// What `store_if_higher` settles on: the best score and, when the candidate
/// beat the stored best, the file contents to write.
pub enum StoreAction {
    Keep { best: u32 },
    Write { best: u32, contents: String },
}

impl StoreAction {
    pub open spec fn best_score(self) -> u32 {
        match self {
            StoreAction::Keep { best } => best,
            StoreAction::Write { best, .. } => best,
        }
    }

    /// The score that the action leaves as the best one.
    pub fn best(&self) -> (b: u32)
        ensures
            b == self.best_score(),
    {
        match self {
            StoreAction::Keep { best } => *best,
            StoreAction::Write { best, .. } => *best,
        }
    }
}

/// The score read back from the high-score file: its trimmed contents as a
/// `u32`, and 0 for a missing file or anything else.
pub open spec fn saved_score(contents: Option<Seq<char>>) -> u32 {
    match contents {
        Some(text) => match parse_u32(trim(text)) {
            Some(n) => n,
            None => 0,
        },
        None => 0,
    }
}

/// The larger of the stored best and the candidate.
pub open spec fn best_of(previous_best: u32, candidate: u32) -> u32 {
    if candidate > previous_best {
        candidate
    } else {
        previous_best
    }
}

impl HighScoreStore {
    pub closed spec fn location(self) -> PathBuf {
        self.path
    }

    /// A store at `path`.
    pub fn new(path: PathBuf) -> (store: Self)
        ensures
            store.location() == path,
    {
        HighScoreStore { path }
    }

    /// The store named by the `DINO_HIGH_SCORE_PATH` setting when it is set,
    /// else the one at `default_path`.
    pub fn from_env_or_default(env_path: Option<PathBuf>, default_path: PathBuf) -> (store: Self)
        ensures
            store.location() == match env_path {
                Some(p) => p,
                None => default_path,
            },
    {
        match env_path {
            Some(p) => HighScoreStore::new(p),
            None => HighScoreStore::new(default_path),
        }
    }

    pub fn path(&self) -> (p: &PathBuf)
        ensures
            *p == self.location(),
    {
        &self.path
    }

    /// The best score held by a high-score file with `contents` (`None` when
    /// it could not be read).
    pub fn score_from_contents(contents: Option<&str>) -> (score: u32)
        ensures
            score == saved_score(
                match contents {
                    Some(t) => Some(t@),
                    None => None,
                },
            ),
            contents is None ==> score == 0,
            contents is Some && parse_u32(trim(contents->0@)) is Some ==> score == parse_u32(
                trim(contents->0@),
            )->0,
            contents is Some && parse_u32(trim(contents->0@)) is None ==> score == 0,
    {
        match contents {
            None => 0,
            Some(text) => {
                let v = chars_of(text);
                let (a, b) = trim_range(&v, 0, v.len());
                proof {
                    assert(v@.subrange(0, v@.len() as int) =~= v@);
                }
                match parse_u32_at(&v, a, b) {
                    Some(n) => n,
                    None => 0,
                }
            },
        }
    }

    /// The contents that the high-score file gets for `score`.
    pub fn contents_for_score(score: u32) -> (contents: String)
        ensures
            contents@ == decimal(score as nat),
    {
        decimal_string(score)
    }

    /// Keeps the larger of `previous_best` and `candidate`; the file is
    /// rewritten only when the candidate is strictly higher.
    pub fn store_if_higher(&self, previous_best: u32, candidate: u32) -> (action: StoreAction)
        ensures
            action.best_score() == best_of(previous_best, candidate),
            action is Write <==> candidate > previous_best,
            action matches StoreAction::Write { contents, .. } ==> contents@ == decimal(
                candidate as nat,
            ),
            action.best_score() >= previous_best,
            action.best_score() >= candidate,
            action.best_score() == previous_best || action.best_score() == candidate,
    {
        if candidate > previous_best {
            StoreAction::Write { best: candidate, contents: HighScoreStore::contents_for_score(candidate) }
        } else {
            StoreAction::Keep { best: previous_best }
        }
    }
}

/// What is written for a score reads back as that score.
pub proof fn lemma_score_round_trip(score: u32)
    ensures
        saved_score(Some(decimal(score as nat))) == score,
{
    let d = decimal(score as nat);
    lemma_decimal_digits(score as nat);
    assert(!CharClass::Space.holds(d[0]));
    assert(run_len(d, CharClass::Space) == 0);
    assert(d.skip(0) =~= d);
    assert(!CharClass::Space.holds(d.last()));
    assert(back_run_len(d, CharClass::Space) == 0);
    assert(d.take(d.len() as int) =~= d);
    assert(trim(d) == d);
    assert(d[0] != '+');
    assert(parse_unsigned(d) == Some(digits_value(d)));
}

/// Storing again with the best that a store settled on never rewrites the
/// file, and the best stays.
pub proof fn lemma_store_settles(previous_best: u32, candidate: u32)
    ensures
        !(candidate > best_of(previous_best, candidate)),
        best_of(best_of(previous_best, candidate), candidate) == best_of(previous_best, candidate),
        best_of(previous_best, candidate) >= previous_best,
        best_of(previous_best, candidate) >= candidate,
{
}

} // verus!
