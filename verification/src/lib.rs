//! Small verified text, parsing, record and todo-store utilities.

pub mod calculator;
pub mod catalog;
pub mod counter;
pub mod collections;
pub mod editor;
pub mod file_stats;
pub mod iterators;
pub mod numbers;
pub mod options;
pub mod orders;
pub mod parsing;
pub mod ranking;
pub mod records;
pub mod reports;
pub mod tally;
pub mod text;
pub mod todo_memory;
pub mod todo_sql;
pub mod todos;
pub mod validation;
pub mod word_freq;
pub mod word_report;
pub mod word_stats;
