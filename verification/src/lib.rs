pub mod assoc;
pub mod error;
pub mod strings;
pub mod xml_node;
pub mod json_value;
pub mod json_writer;
pub mod json_laws;
pub mod yaml_laws;
pub mod yaml_grouped_laws;
pub mod yaml_value;
pub mod yaml_writer;
pub mod yaml_reader;
pub mod metadata_types;
pub mod str_map;
pub mod config;
pub mod instructions;
pub mod instructions_laws;
pub mod manifest;
pub mod mcp;
pub mod mcp_config;
pub mod tracking;
pub mod convert;
pub mod diff;
pub mod cli;
pub mod xml_parser;
pub mod parse_laws;
pub mod hook;
pub mod hook_settings;
pub mod paths;
pub mod agent;
