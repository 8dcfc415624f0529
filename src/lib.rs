//! Country trivia: the record store built from country data, its validity
//! filter, and the multiple-choice quiz session that runs over it.

pub mod text;
pub mod country;
pub mod cli;
pub mod quiz;

pub use cli::{file_check, get_output_path, is_valid_count, is_valid_file, MAX_COUNT};
pub use country::{transform_from_source, validate_countries, Country, Name, SourceCountry};
pub use quiz::{QuizError, Question, Session, Verdict, NUMBER_OF_OPTIONS};
pub use text::{contains, decimal_string, parse_choice};
