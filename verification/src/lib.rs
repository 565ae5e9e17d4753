pub mod codec;
pub mod codec_lemmas;
pub mod decode;
pub mod error;
pub mod flow;
pub mod flow_laws;
pub mod gate;
pub mod name;
pub mod pipeline;
pub mod resolver;
pub mod structure;
pub mod types;
pub mod validator;
