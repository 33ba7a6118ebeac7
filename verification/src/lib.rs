pub mod text;
pub mod paths;
pub mod yaml;
pub mod schema;
pub mod ids;
pub mod criterion;
pub mod order;
pub mod workflow;
pub mod progress;
pub mod ledger;
pub mod check;
pub mod locate;
pub mod task;
pub mod audit;
pub mod prompts;
pub mod verdicts;
pub mod execute;
pub mod records;
pub mod help;
pub mod artifact;
pub mod catalog;
pub mod material;
pub mod report;
pub mod search;
pub mod health;
