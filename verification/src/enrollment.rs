//! Enrolling a keyring password from the command line: when it is allowed, and what is said.

use crate::config::StorageConfig;
use crate::text;
use vstd::prelude::*;

verus! {

/// The keyring that a password unlocks.
#[derive(Clone, Copy, Debug, PartialEq, Eq, Structural)]
pub enum Backend {
    Gnome,
    KWallet,
}

pub open spec fn switched_on(backend: Backend, storage: StorageConfig) -> bool {
    match backend {
        Backend::Gnome => storage.unlock_gnome_keyring,
        Backend::KWallet => storage.unlock_kwallet,
    }
}

pub open spec fn refusal(
    backend: Backend,
    name: Seq<char>,
    storage: StorageConfig,
    invalid: Option<Seq<char>>,
) -> Option<Seq<char>> {
    if !switched_on(backend, storage) {
        Some("enable "@ + name + " unlock with gaze config first"@)
    } else {
        invalid
    }
}

/// Whether a password may be enrolled: its keyring is switched on, and the settings can work together.
/// `invalid` says why they cannot.
pub fn check_enrollment(
    backend: Backend,
    name: &str,
    storage: &StorageConfig,
    invalid: Option<String>,
) -> (r: Result<(), String>)
    ensures
        match r {
            Ok(_) => refusal(backend, name@, *storage, text::optional(invalid)) is None,
            Err(error) => refusal(backend, name@, *storage, text::optional(invalid)) == Some(
                error@,
            ),
        },
{
    let enabled = match backend {
        Backend::Gnome => storage.unlock_gnome_keyring,
        Backend::KWallet => storage.unlock_kwallet,
    };
    if !enabled {
        return Err(text::cat3("enable ", name, " unlock with gaze config first"));
    }
    match invalid {
        Some(error) => Err(error),
        None => Ok(()),
    }
}

/// A password is asked for only where no core dump can hold it.
pub fn check_core_limit(status: i32) -> (r: Result<(), &'static str>)
    ensures
        match r {
            Ok(_) => status == 0,
            Err(error) => status != 0 && error@ == "cannot disable credential core dumps"@,
        },
{
    if status == 0 {
        Ok(())
    } else {
        Err("cannot disable credential core dumps")
    }
}

pub fn password_notice(name: &str, username: &str) -> (r: String)
    ensures
        r@ == "Enter the "@ + name@ + " password for "@ + username@ + "."@,
{
    text::cat5("Enter the ", name, " password for ", username, ".")
}

pub fn password_prompt(name: &str) -> (r: String)
    ensures
        r@ == name@ + " password"@,
{
    text::cat2(name, " password")
}

pub fn enrolled_notice(name: &str, username: &str) -> (r: String)
    ensures
        r@ == name@ + " unlock enrolled for "@ + username@ + "."@,
{
    text::cat4(name, " unlock enrolled for ", username, ".")
}

/// A keyring is enrolled exactly where its own switch is on and the configuration is valid; the other
/// keyring's switch does not count.
pub proof fn a_keyring_goes_by_its_own_switch(
    backend: Backend,
    name: Seq<char>,
    storage: StorageConfig,
    invalid: Option<Seq<char>>,
)
    ensures
        switched_on(Backend::Gnome, storage) == storage.unlock_gnome_keyring,
        switched_on(Backend::KWallet, storage) == storage.unlock_kwallet,
        refusal(backend, name, storage, invalid) is None <==> switched_on(backend, storage)
            && invalid is None,
        !switched_on(backend, storage) ==> refusal(backend, name, storage, invalid) == Some(
            "enable "@ + name + " unlock with gaze config first"@,
        ),
        switched_on(backend, storage) ==> refusal(backend, name, storage, invalid) == invalid,
{
}

} // verus!
