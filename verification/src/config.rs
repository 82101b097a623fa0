//! The configuration of the rebaser, as far as it is plain values, and how a
//! development run changes it.

use vstd::prelude::*;

verus! {

/// Where the keys of the symmetric crypto service are found.
#[derive(Clone, Debug, PartialEq, Eq)]
pub struct SymmetricCryptoServiceConfigFile {
    pub active_key: Option<String>,
    pub active_key_base64: Option<String>,
    pub extra_keys: Vec<String>,
}

/// The configuration file of the rebaser.
#[derive(Clone, Debug, PartialEq, Eq)]
pub struct ConfigFile {
    pub cyclone_encryption_key_path: String,
    pub recreate_management_stream: bool,
    pub symmetric_crypto_service: SymmetricCryptoServiceConfigFile,
}

/// What a configuration file is, text by text.
pub ghost struct ConfigFileModel {
    pub cyclone_encryption_key_path: Seq<char>,
    pub recreate_management_stream: bool,
    pub active_key: Option<Seq<char>>,
    pub active_key_base64: Option<Seq<char>>,
    pub extra_keys: Seq<String>,
}

impl View for ConfigFile {
    type V = ConfigFileModel;

    open spec fn view(&self) -> ConfigFileModel {
        ConfigFileModel {
            cyclone_encryption_key_path: self.cyclone_encryption_key_path@,
            recreate_management_stream: self.recreate_management_stream,
            active_key: match self.symmetric_crypto_service.active_key {
                Some(k) => Some(k@),
                None => None,
            },
            active_key_base64: match self.symmetric_crypto_service.active_key_base64 {
                Some(k) => Some(k@),
                None => None,
            },
            extra_keys: self.symmetric_crypto_service.extra_keys@,
        }
    }
}

/// The configuration without a file: the keys under `/run/rebaser`, and the
/// management stream not recreated.
pub open spec fn default_config() -> ConfigFileModel {
    ConfigFileModel {
        cyclone_encryption_key_path: "/run/rebaser/cyclone_encryption.key"@,
        recreate_management_stream: false,
        active_key: Some("/run/rebaser/donkey.key"@),
        active_key_base64: None,
        extra_keys: Seq::<String>::empty(),
    }
}

pub fn default_cyclone_encryption_key_path() -> (path: String)
    ensures
        path@ == "/run/rebaser/cyclone_encryption.key"@,
{
    String::from_str("/run/rebaser/cyclone_encryption.key")
}

pub fn default_recreate_management_stream() -> (r: bool)
    ensures
        !r,
{
    false
}

pub fn default_symmetric_crypto_config() -> (c: SymmetricCryptoServiceConfigFile)
    ensures
        c.active_key matches Some(k) && k@ == "/run/rebaser/donkey.key"@,
        c.active_key_base64 is None,
        c.extra_keys@ == Seq::<String>::empty(),
{
    SymmetricCryptoServiceConfigFile {
        active_key: Some(String::from_str("/run/rebaser/donkey.key")),
        active_key_base64: None,
        extra_keys: Vec::new(),
    }
}

impl ConfigFile {
    /// The configuration without a file.
    pub fn default_file() -> (c: ConfigFile)
        ensures
            c@ == default_config(),
    {
        ConfigFile {
            cyclone_encryption_key_path: default_cyclone_encryption_key_path(),
            recreate_management_stream: default_recreate_management_stream(),
            symmetric_crypto_service: default_symmetric_crypto_config(),
        }
    }
}

/// In which way the program was started for development, if it was.
#[derive(Clone, Copy, Debug, PartialEq, Eq, Structural)]
pub enum Development {
    /// Started by buck2: the keys are among its resources.
    Buck2,
    /// Started by cargo: the keys are in the source tree.
    Cargo,
    /// Not a development run.
    No,
}

/// In which way the program was started: by buck2 where one of its two
/// build identifiers is set, else by cargo where the directory of the
/// manifest is set, else not for development.
pub fn detect_development(buck_run_build_id: bool, buck_build_id: bool, cargo_manifest_dir: bool) -> (d:
    Development)
    ensures
        d == if buck_run_build_id || buck_build_id {
            Development::Buck2
        } else if cargo_manifest_dir {
            Development::Cargo
        } else {
            Development::No
        },
{
    if buck_run_build_id || buck_build_id {
        Development::Buck2
    } else if cargo_manifest_dir {
        Development::Cargo
    } else {
        Development::No
    }
}

/// Points the configuration at the keys of a development run: the path of
/// the encryption key, and the donkey key as the one active key.
pub fn configure_development(
    config: &mut ConfigFile,
    cyclone_encryption_key_path: String,
    symmetric_crypto_service_key: String,
)
    ensures
        final(config)@ == (ConfigFileModel {
            cyclone_encryption_key_path: cyclone_encryption_key_path@,
            recreate_management_stream: old(config)@.recreate_management_stream,
            active_key: Some(symmetric_crypto_service_key@),
            active_key_base64: None,
            extra_keys: Seq::<String>::empty(),
        }),
{
    config.cyclone_encryption_key_path = cyclone_encryption_key_path;
    config.symmetric_crypto_service = SymmetricCryptoServiceConfigFile {
        active_key: Some(symmetric_crypto_service_key),
        active_key_base64: None,
        extra_keys: Vec::new(),
    };
}

} // verus!
