//! Extraction and interchange of subgraphs of a hierarchical object graph.
//!
//! A live hierarchy of nodes, each carrying typed records, is walked from a
//! chosen root and split into branch and leaf nodes (`walk`).  A deny-list
//! policy then projects the selected nodes into a portable snapshot
//! (`extract`), and a registry-driven codec turns a named snapshot — a
//! prefab — into a human-readable document (`enc`) and back (`parse`),
//! reporting decode failures with their position in the source text.  The
//! codec's round-trip law is proved in `roundtrip`: parsing the document the
//! serializer emits gives back exactly the prefab it was given.

pub mod data;
pub mod enc;
pub mod extract;
pub mod parse;
pub mod roundtrip;
pub mod walk;
