//! The contract that an output producer (a font builder) implements.
use vstd::prelude::*;
use crate::emoji::Emoji;
use std::path::PathBuf;

verus! {

/// A prepared emoji, and possibly derived emojis with their own prepared values.
pub type PreparationResult<Prepared, Failure> = Result<(Prepared, Option<Vec<(Emoji, Prepared)>>), Failure>;

/// The outcome of each item of a build: its prepared value or its error.
pub type Outcomes<Prepared, Failure> = Vec<(Emoji, Result<Prepared, Failure>)>;

/// The sequences of the outcomes.
pub open spec fn outcome_keys<P, E>(o: Seq<(Emoji, Result<P, E>)>) -> Seq<Seq<u32>> {
    o.map_values(outcome_key())
}

/// The sequence of an item's outcome.
pub open spec fn outcome_key<P, E>() -> spec_fn((Emoji, Result<P, E>)) -> Seq<u32> {
    |x: (Emoji, Result<P, E>)| x.0.sequence@
}

/// An emoji and the emojis derived from it (such as its skin tone
/// variants), each with a tag that says how it is derived.
#[derive(Debug)]
pub struct DerivedEmojis<T> where T: Clone + Send + Sync {
    /// The emoji that the others are derived from.
    pub base: Emoji,
    /// The derived emojis with their tags.
    pub derived: Vec<(Emoji, T)>,
}

/// A producer of an output artifact from prepared emojis.
///
/// The driver knows nothing of what a producer does inside; it only tells
/// success from failure.
pub trait EmojiBuilder: Send + Sync + Sized {
    /// Anything that can go wrong with this producer.
    type Err;
    /// An emoji that has been prepared and can be used in the assembly.
    type PreparedEmoji;
    /// The producer's own settings, passed through to [`EmojiBuilder::new`].
    type Config;

    /// Sets up a producer that works in `build_dir`.
    fn new(build_dir: PathBuf, config: Self::Config) -> Result<Self, Self::Err>;

    /// Called when the driver stops early, with the outcomes collected so far,
    /// so that the producer can keep what it has prepared. Does nothing by default.
    fn finish(&mut self, emojis: Outcomes<Self::PreparedEmoji, Self::Err>) -> (r: Result<(), Self::Err>)
        default_ensures
            r is Ok,
    {
        Ok(())
    }

    /// Prepares a single emoji. It may be called concurrently for different
    /// emojis; it may assume that it has not been called for this emoji yet,
    /// or that `undo` or `reset` has been called since.
    fn prepare(&self, emoji: &Emoji) -> PreparationResult<Self::PreparedEmoji, Self::Err>;

    /// A prepared value that stands for an emoji whose source and artifact
    /// are unchanged since the last build, if the producer can give one
    /// without preparing it again. Gives none by default.
    fn reuse(&self, emoji: &Emoji) -> (r: Option<Self::PreparedEmoji>)
        default_ensures
            r is None,
    {
        None
    }

    /// Assembles the output from the outcome of every emoji (one outcome for
    /// each sequence) and writes it to `output_file`.
    fn build(&mut self, emojis: Outcomes<Self::PreparedEmoji, Self::Err>, output_file: PathBuf) -> Result<(), Self::Err>
        requires
            emojis@.len() > 0,
            outcome_keys(emojis@).no_duplicates(),
    ;

    /// Reverses a prior `prepare` of the emoji. By default it hands the
    /// outcome back unchanged.
    fn undo(&self, emoji: &Emoji, prepared: Result<Self::PreparedEmoji, Self::Err>)
        -> (r: Result<Result<Self::PreparedEmoji, Self::Err>, Self::Err>)
        default_ensures
            r == Ok::<Result<Self::PreparedEmoji, Self::Err>, Self::Err>(prepared),
    {
        Ok(prepared)
    }

    /// Brings the build directory back to the state of an empty (or seeded)
    /// directory. The usual implementation removes every entry of the
    /// directory and reports the removals that failed with [`reset_outcome`].
    fn reset(&self, build_dir: PathBuf) -> Result<(), ResetError<Self::Err>>;
}

/// An error of [`EmojiBuilder::reset`].
#[derive(Debug)]
pub enum ResetError<T> {
    /// The build directory could not be read.
    IoError(std::io::Error),
    /// An error of the producer itself.
    BuilderError(T),
    /// The entries that could not be removed, one error each.
    IoErrors(Vec<std::io::Error>),
}

/// The errors among the results, in their order.
pub open spec fn failures(results: Seq<Result<(), std::io::Error>>) -> Seq<std::io::Error>
    decreases results.len(),
{
    if results.len() == 0 {
        seq![]
    } else {
        failures(results.drop_last()) + match results.last() {
            Err(e) => seq![e],
            Ok(_) => seq![],
        }
    }
}

/// The outcome of clearing a build directory: the listing's own error if the
/// directory could not be read, nothing if every entry was removed, and
/// otherwise the errors of exactly the removals that failed, all of them.
pub fn reset_outcome<T>(listing: Result<Vec<Result<(), std::io::Error>>, std::io::Error>) -> (r: Result<(), ResetError<T>>)
    ensures
        listing is Err ==> (r matches Err(ResetError::IoError(e)) && e == listing->Err_0),
        listing is Ok && failures(listing->Ok_0@).len() == 0 ==> r is Ok,
        listing is Ok && failures(listing->Ok_0@).len() > 0
            ==> (r matches Err(ResetError::IoErrors(v)) && v@ == failures(listing->Ok_0@)),
{
    match listing {
        Err(e) => Err(ResetError::IoError(e)),
        Ok(results) => {
            let ghost all = results@;
            let mut errors: Vec<std::io::Error> = Vec::new();
            let mut rest = results;
            let ghost mut done: int = 0;
            while rest.len() > 0
                invariant
                    0 <= done <= all.len(),
                    rest@ == all.skip(done),
                    errors@ == failures(all.take(done)),
                decreases rest.len(),
            {
                let item = rest.remove(0);
                proof {
                    assert(item == all[done]);
                    assert(all.take(done + 1) =~= all.take(done).push(item));
                    assert(all.take(done + 1).drop_last() =~= all.take(done));
                    assert(rest@ =~= all.skip(done + 1));
                    done = done + 1;
                }
                match item {
                    Err(e) => {
                        errors.push(e);
                    },
                    Ok(()) => {},
                }
            }
            assert(all.take(done) =~= all);
            if errors.len() == 0 {
                Ok(())
            } else {
                Err(ResetError::IoErrors(errors))
            }
        },
    }
}

} // verus!
