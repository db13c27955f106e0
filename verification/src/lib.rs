//! Extraction of a Fedora Commons 3 repository into a staged tree and into
//! CSV manifests.
//!
//! The library holds the decisions; reading and writing files is left to
//! its caller. Stage 1 tells which file of an installation is which object
//! or datastream version (`identifiers`), where each goes (`staging`,
//! `extensions`), whether it has to be written (`migrate`), and what the
//! inline XML datastreams of a FOXML document are (`inline`). Stage 2
//! builds the object graph (`foxml`, `rels_ext`, `object`, `object_map`)
//! and projects it into rows (`rows`), and makes the CSV of a script of
//! what the script returned (`scripts`, `xml_map`, `dates`).
//!
//! Every order that a user sees is the alphanumeric one (`order`). XML is
//! read by `quick_xml` and handed on as plain events (`events`).
pub mod dates;
pub mod events;
pub mod extensions;
pub mod foxml;
pub mod identifiers;
pub mod inline;
pub mod migrate;
pub mod object;
pub mod object_map;
pub mod order;
pub mod paths;
pub mod rels_ext;
pub mod rows;
pub mod scripts;
pub mod source;
pub mod staging;
pub mod text;
pub mod xml_map;
