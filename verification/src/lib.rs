//! Retake detection and keep-range construction for time-stamped speech
//! transcripts.
//!
//! A transcript arrives as words with the spans in which they were spoken.
//! The [`segmenter`] cuts it into speech chunks, the [`classifier`] marks
//! the chunks that are retakes, the [`corrector`] repairs a keep set that
//! was changed from outside, and the range builder in [`ranges`] turns the
//! decision, together with silences and other spans to remove, into the
//! final keep ranges.
//!
//! Times are whole milliseconds from the start of the media, and ratios are
//! kept as pairs of counts, so that every threshold is applied exactly.
//! Every function is total on the inputs its contract admits and never
//! panics.

pub mod timeline;
pub mod transcript;
pub mod merge;
pub mod ranges;

pub mod chars;
pub mod text;
pub mod wordset;
pub mod lexicon;
pub mod words;
pub mod ngrams;
pub mod shared;
pub mod similarity;

pub mod segmenter;
pub mod profile;
pub mod marks;
pub mod measures;
pub mod openers;
pub mod strategies;
pub mod classifier;
pub mod corrector;

pub mod fillers;
pub mod phrases;
pub mod passages;
pub mod restarts;
pub mod deadair;
pub mod hints;
pub mod review;

pub mod provider;
pub mod framing;
pub mod silencelog;
pub mod jobs;
