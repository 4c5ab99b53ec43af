//! A minimal JSON pull-parser for resource-constrained environments.

pub mod bitstack;

pub use bitstack::{
    ArrayBitBucket, ArrayBitStack, BitBucket, BitStackConfig, BitStackStruct, DefaultConfig,
    DepthCounter,
};
pub use bitstack::BitBucket as BitStack;

pub mod tokenizer;
pub mod tokenizer_laws;
pub mod parse_error;
pub mod escape_processor;
pub mod int_parser;
pub mod json_number;
pub mod json_string;
pub mod shared;
pub mod stream_buffer;
pub mod direct_buffer;
pub mod copy_on_escape;
pub mod chunk_reader;
pub mod event_processor;
pub mod slice_input_buffer;
pub mod number_parser;
pub mod pull_parser;
pub mod stream_parser;
pub mod slice_content_builder;
pub mod slice_parser;
pub mod push_content_builder;
pub mod push_parser;
pub mod stream_content_builder;
