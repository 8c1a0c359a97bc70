//! A single-user task-tracking engine: an in-memory collection of tasks with
//! durable persistence through a text encoding whose round trip is proved,
//! together with a small community-library service and a few input validators.

pub mod caracteres;
pub mod codec;
pub mod dates;
pub mod digits;
pub mod emprestimo;
pub mod emprestimo_service;
pub mod errors;
pub mod formatacao;
pub mod input;
pub mod livro;
pub mod livro_service;
pub mod service;
pub mod storage;
pub mod task;
pub mod usuario;
pub mod usuario_service;
pub mod validacao;
pub mod validador;

pub use dates::Date;
