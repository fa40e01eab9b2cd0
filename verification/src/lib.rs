//! A minimal HTTP/1.1 server core: a request parser, a response model with a
//! byte-exact serializer, and an exact-match router over user-supplied
//! handlers. Socket handling, threads and locks live with the embedding
//! program; everything here is plain computation on bytes and strings.

pub mod chars;
pub mod handlers;
pub mod headers;
pub mod request;
pub mod response;
pub mod router;
