pub mod buffer;
pub mod injector;
pub mod recursion;
pub mod sentinel;
pub mod trie;
pub mod variables;

pub use buffer::Buffer;
pub use injector::Injector;
pub use sentinel::SentinelMessage;
pub use trie::Trie;
pub use variables::VariableParser;
