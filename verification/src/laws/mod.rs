//! What the library is for: what holds of its answers, whatever they are worked out from.

pub mod answers;
pub mod asking;
pub mod changing;
pub mod conditions;
pub mod counting;
pub mod deploying;
pub mod editing;
pub mod finding;
pub mod hosting;
pub mod keeping;
pub mod listing;
pub mod loading;
pub mod panels;
pub mod placing;
pub mod programs;
pub mod saying;
pub mod searching;
pub mod settling;
pub mod showing;
pub mod sorting;
pub mod texts;
pub mod writing;
