//! The rules of account key generation: which files are written, what the
//! text files hold, and when existing files stand in the way.

use crate::encoding::{base64_encode, base64_encoding, hex_encode, hex_encoding};
use vstd::prelude::*;
use vstd::string::*;

verus! {

pub const ACCOUNT_ID_BASE64: &'static str = "account_id_base64";

pub const ACCOUNT_ID_HEX: &'static str = "account_id_hex";

pub const PUBLIC_KEY_BASE64: &'static str = "public_key_base64";

pub const PUBLIC_KEY_HEX: &'static str = "public_key_hex";

pub const SECRET_KEY_PEM: &'static str = "secret_key.pem";

pub const PUBLIC_KEY_PEM: &'static str = "public_key.pem";

pub const ED25519: &'static str = "Ed25519";

pub const SECP256K1: &'static str = "secp256k1";

pub const FORCE: &'static str = "force";

pub const DEFAULT_OUTPUT_DIR: &'static str = ".";

/// The names of the created files, in the order in which they are probed.
pub open spec fn file_names() -> Seq<Seq<char>> {
    seq![
        ACCOUNT_ID_BASE64@,
        ACCOUNT_ID_HEX@,
        PUBLIC_KEY_BASE64@,
        PUBLIC_KEY_HEX@,
        SECRET_KEY_PEM@,
        PUBLIC_KEY_PEM@,
    ]
}

/// The kind of key pair to generate.
#[derive(Clone, Copy, Debug, PartialEq, Eq, Structural)]
pub enum Algorithm {
    Ed25519,
    Secp256k1,
}

/// Why a run creates nothing.
#[derive(Clone, Copy, Debug, PartialEq, Eq, Structural)]
pub enum KeygenError {
    /// The file at this position of `file_names` exists and overwriting was not asked for.
    FileExists { index: usize },
    /// The algorithm's name is neither `Ed25519` nor `secp256k1`.
    InvalidAlgorithm,
}

/// A text file to write: its name inside the output directory and its contents.
pub struct KeyFile {
    pub name: &'static str,
    pub contents: String,
}

/// The position of the first `true`, if there is one.
pub open spec fn first_set(flags: Seq<bool>) -> Option<int> {
    if exists|i: int| 0 <= i < flags.len() && flags[i] {
        Some(choose|i: int| 0 <= i < flags.len() && flags[i] && forall|j: int| 0 <= j < i ==> !flags[j])
    } else {
        None
    }
}

/// The algorithm that a name stands for.
pub open spec fn algorithm_named(name: Seq<char>) -> Option<Algorithm> {
    if name == ED25519@ {
        Some(Algorithm::Ed25519)
    } else if name == SECP256K1@ {
        Some(Algorithm::Secp256k1)
    } else {
        None
    }
}

/// What a run decides before it generates anything: existing files are
/// looked at first, then the algorithm's name.
pub open spec fn prepared(force: bool, exists: Seq<bool>, algorithm: Seq<char>) -> Result<
    Algorithm,
    KeygenError,
> {
    if !force && first_set(exists) is Some {
        Err(KeygenError::FileExists { index: first_set(exists)->0 as usize })
    } else {
        match algorithm_named(algorithm) {
            Some(a) => Ok(a),
            None => Err(KeygenError::InvalidAlgorithm),
        }
    }
}

/// The four text files for an account hash and a public key.
pub open spec fn text_files_of(
    account_base64: Seq<char>,
    account_hex: Seq<char>,
    key_base64: Seq<char>,
    key_hex: Seq<char>,
    files: Seq<KeyFile>,
) -> bool {
    &&& files.len() == 4
    &&& files[0].name@ == ACCOUNT_ID_BASE64@ && files[0].contents@ == account_base64
    &&& files[1].name@ == ACCOUNT_ID_HEX@ && files[1].contents@ == account_hex
    &&& files[2].name@ == PUBLIC_KEY_BASE64@ && files[2].contents@ == key_base64
    &&& files[3].name@ == PUBLIC_KEY_HEX@ && files[3].contents@ == key_hex
}

/// The key generation subcommand.
pub struct Keygen {}

impl Keygen {
    /// The names of the files a run creates, in probing order.
    pub fn files() -> (names: [&'static str; 6])
        ensures
            names@.len() == 6,
            forall|i: int| 0 <= i < 6 ==> (#[trigger] names@[i])@ == file_names()[i],
    {
        [
            ACCOUNT_ID_BASE64,
            ACCOUNT_ID_HEX,
            PUBLIC_KEY_BASE64,
            PUBLIC_KEY_HEX,
            SECRET_KEY_PEM,
            PUBLIC_KEY_PEM,
        ]
    }

    /// The output directory: the one given, or the current directory.
    pub fn output_dir<'a>(given: Option<&'a str>) -> (dir: &'a str)
        ensures
            dir@ == (match given {
                Some(path) => path@,
                None => DEFAULT_OUTPUT_DIR@,
            }),
    {
        match given {
            Some(path) => path,
            None => DEFAULT_OUTPUT_DIR,
        }
    }

    /// Finds the first file that exists, given one flag per file in probing order.
    pub fn first_existing(exists: &[bool]) -> (found: Option<usize>)
        ensures
            match found {
                Some(i) => i < exists@.len() && exists@[i as int] && forall|j: int|
                    0 <= j < i ==> !exists@[j],
                None => forall|j: int| 0 <= j < exists@.len() ==> !exists@[j],
            },
            found.is_some() == first_set(exists@).is_some(),
            found is Some ==> found->0 == first_set(exists@)->0,
    {
        let mut i: usize = 0;
        while i < exists.len()
            invariant
                i <= exists@.len(),
                forall|j: int| 0 <= j < i ==> !exists@[j],
            decreases exists@.len() - i,
        {
            if exists[i] {
                proof {
                    let w = first_set(exists@)->0;
                    assert(0 <= w < exists@.len() && exists@[w] && forall|j: int|
                        0 <= j < w ==> !exists@[j]);
                    assert(w == i) by {
                        if w < i {
                            assert(!exists@[w]);
                        }
                        if i < w {
                            assert(!exists@[i as int]);
                        }
                    }
                }
                return Some(i);
            }
            i = i + 1;
        }
        None
    }

    /// Tells which algorithm a name stands for.
    pub fn algorithm(name: &str) -> (found: Option<Algorithm>)
        ensures
            found == algorithm_named(name@),
    {
        let owned = name.to_owned();
        if owned == ED25519.to_owned() {
            Some(Algorithm::Ed25519)
        } else if owned == SECP256K1.to_owned() {
            Some(Algorithm::Secp256k1)
        } else {
            None
        }
    }

    /// Decides whether a run may go ahead, and with which algorithm.
    pub fn prepare(force: bool, exists: &[bool], algorithm: &str) -> (decision: Result<
        Algorithm,
        KeygenError,
    >)
        ensures
            decision == prepared(force, exists@, algorithm@),
    {
        if !force {
            if let Some(index) = Self::first_existing(exists) {
                return Err(KeygenError::FileExists { index });
            }
        }
        match Self::algorithm(algorithm) {
            Some(a) => Ok(a),
            None => Err(KeygenError::InvalidAlgorithm),
        }
    }

    /// What to tell the user when a file stands in the way.
    pub fn exists_message(path: &str) -> (message: String)
        ensures
            message@ == path@ + " exists. To overwrite, rerun with --"@ + FORCE@,
    {
        let mut message = path.to_owned();
        message.append(" exists. To overwrite, rerun with --");
        message.append(FORCE);
        message
    }

    /// What to tell the user when all files are written.
    pub fn done_message(dir: &str) -> (message: String)
        ensures
            message@ == "Wrote files to "@ + dir@,
    {
        let mut message = "Wrote files to ".to_owned();
        message.append(dir);
        message
    }

    /// Puts the four encoded texts under their file names.
    pub fn assemble(
        account_base64: String,
        account_hex: String,
        key_base64: String,
        key_hex: String,
    ) -> (files: Vec<KeyFile>)
        ensures
            text_files_of(account_base64@, account_hex@, key_base64@, key_hex@, files@),
    {
        let mut files: Vec<KeyFile> = Vec::new();
        files.push(KeyFile { name: ACCOUNT_ID_BASE64, contents: account_base64 });
        files.push(KeyFile { name: ACCOUNT_ID_HEX, contents: account_hex });
        files.push(KeyFile { name: PUBLIC_KEY_BASE64, contents: key_base64 });
        files.push(KeyFile { name: PUBLIC_KEY_HEX, contents: key_hex });
        files
    }

    /// The text files for an account hash and the bytes of a public key:
    /// each in base64 and in hexadecimal.
    pub fn text_files(account_id: &[u8], public_key: &[u8]) -> (files: Vec<KeyFile>)
        ensures
            text_files_of(
                base64_encoding(account_id@),
                hex_encoding(account_id@),
                base64_encoding(public_key@),
                hex_encoding(public_key@),
                files@,
            ),
    {
        Self::assemble(
            base64_encode(account_id),
            hex_encode(account_id),
            base64_encode(public_key),
            hex_encode(public_key),
        )
    }
}

} // verus!
