//! XML-RPC value codec: the value tree, the wire encoder, the tree builder
//! over tokenizer events, the stack-based decoder and the call envelope.

pub mod text;
pub mod value;
pub mod error;
pub mod encoder;
pub mod token;
pub mod builder;
pub mod reader;
pub mod decoder;
pub mod protocol;
pub mod client;
pub mod convert;
pub mod laws;
pub mod roundtrip;

pub use builder::Builder;
pub use client::Client;
pub use convert::ToXml;
pub use decoder::Decoder;
pub use encoder::{as_xml, encode, AsXml, Encoder};
pub use error::{error_str, DecoderError, EncoderError, ErrorCode, ParserError};
pub use protocol::{Request, Response};
pub use token::{ReaderEvent, Tag, XmlEvent};
pub use value::{Array, Object, Xml};
