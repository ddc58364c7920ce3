//! The decision core of a desktop code-review application.

pub mod annotation_places;
pub mod annotations;
pub mod cache;
pub mod cache_keys;
pub mod canonical;
pub mod contexts;
pub mod copies;
pub mod difftastic;
pub mod document;
pub mod drafts;
pub mod editor;
pub mod errors;
pub mod events;
pub mod finish;
pub mod flows;
pub mod found_places;
pub mod full_file;
pub mod given_answers;
pub mod history;
pub mod history_entries;
pub mod ids;
pub mod job_runs;
pub mod jobs;
pub mod kept_records;
pub mod line_texts;
pub mod measured_work;
pub mod ownership;
pub mod patch_lines;
pub mod perf;
pub mod planned_steps;
pub mod present;
pub mod presentation;
pub mod presentation_cache;
pub mod prompt;
pub mod prompt_requests;
pub mod refresh;
pub mod remote;
pub mod remote_files;
pub mod remote_open;
pub mod remote_refresh;
pub mod remote_review;
pub mod remote_source;
pub mod replay;
pub mod repositories;
pub mod repository_choices;
pub mod review;
pub mod rows;
pub mod rpc;
pub mod saved_choices;
pub mod saving;
pub mod sessions;
pub mod settings;
pub mod shown_folds;
pub mod shown_hunks;
pub mod source_lines;
pub mod split;
pub mod structural_rows;
pub mod text;
pub mod text_pieces;
pub mod text_set;
pub mod time;
pub mod ui_state;
pub mod views;
pub mod watched_changes;
pub mod window_rows;
pub mod workspace;
pub mod workspace_lists;
