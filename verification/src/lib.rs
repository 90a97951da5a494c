pub mod client;
pub mod document;
pub mod documents;
pub mod ids;
pub mod node;
pub mod repository;
pub mod store;
pub mod text;
pub mod web;
