//! Reading of encrypted MSIX-VC (GDK) packages: key handling, AES-XTS decryption, the hash
//! tree, the tables of a package and the plan by which its files are extracted.

pub mod choice_laws;
pub mod cipher;
pub mod decoder;
pub mod extract;
pub mod extract_laws;
pub mod guid;
pub mod hash_tree;
pub mod header_laws;
pub mod hexadecimal;
pub mod key;
pub mod key_laws;
pub mod layout;
pub mod plan;
pub mod plan_laws;
pub mod reading;
pub mod record;
pub mod repack;
pub mod selection;
pub mod step_laws;
pub mod stream;
pub mod stream_laws;
pub mod table_laws;
pub mod tables;
pub mod text;
pub mod text_laws;
pub mod tree_laws;
pub mod xts_laws;
