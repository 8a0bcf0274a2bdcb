//! The TPM that keys are sealed with: which of a machine's devices is used.

use crate::keyring;
use crate::keyring::{sealed_key, KeyringError};
use crate::secret::{SealedKey, Secret, KEY_LEN};
use vstd::prelude::*;

verus! {

/// The kernel's resource manager.
pub const TPM_RM_DEVICE: &'static str = "/dev/tpmrm0";

pub const TPM_RAW_DEVICE: &'static str = "/dev/tpm0";

pub const NO_DEVICE: &'static str = "no usable local TPM 2.0 device";

/// What trying a device came to: a context, nothing where the device is not there or does not open,
/// or an error where not even its name can be used.
pub open spec fn tried<
    C,
    P: Fn(&'static str) -> bool,
    O: Fn(&'static str) -> Result<Option<C>, String>,
>(present: P, open: O, device: &'static str, outcome: Result<Option<C>, String>) -> bool {
    ||| call_ensures(present, (device,), false) && outcome == Ok::<Option<C>, String>(None)
    ||| call_ensures(present, (device,), true) && call_ensures(open, (device,), outcome)
}

/// The outcome of a device that settles the search.
pub open spec fn settling<C>(found: Result<C, String>) -> Result<Option<C>, String> {
    match found {
        Ok(context) => Ok(Some(context)),
        Err(error) => Err(error),
    }
}

/// What the search for a device came to: the resource manager comes before the raw device.
pub open spec fn found<
    C,
    P: Fn(&'static str) -> bool,
    O: Fn(&'static str) -> Result<Option<C>, String>,
>(present: P, open: O, result: Result<C, String>) -> bool {
    ||| tried(present, open, TPM_RM_DEVICE, settling(result))
    ||| tried(present, open, TPM_RM_DEVICE, Ok(None)) && {
        ||| tried(present, open, TPM_RAW_DEVICE, settling(result))
        ||| tried(present, open, TPM_RAW_DEVICE, Ok(None)) && result is Err && (result->Err_0)@
            == NO_DEVICE@
    }
}

/// A device may be asked for, and may be opened where it is there.
pub open spec fn tryable<
    C,
    P: Fn(&'static str) -> bool,
    O: Fn(&'static str) -> Result<Option<C>, String>,
>(present: P, open: O, device: &'static str) -> bool {
    &&& call_requires(present, (device,))
    &&& call_ensures(present, (device,), true) ==> call_requires(open, (device,))
}

/// The search may be made. It asks for the two local devices and for no other, for the raw one only
/// once the resource manager gave nothing.
pub open spec fn searchable<
    C,
    P: Fn(&'static str) -> bool,
    O: Fn(&'static str) -> Result<Option<C>, String>,
>(present: P, open: O) -> bool {
    &&& tryable(present, open, TPM_RM_DEVICE)
    &&& tried(present, open, TPM_RM_DEVICE, Ok(None)) ==> tryable(present, open, TPM_RAW_DEVICE)
}

fn try_device<
    C,
    P: Fn(&'static str) -> bool,
    O: Fn(&'static str) -> Result<Option<C>, String>,
>(present: &P, open: &O, device: &'static str) -> (r: Result<Option<C>, String>)
    requires
        tryable(*present, *open, device),
    ensures
        tried(*present, *open, device, r),
{
    if !present(device) {
        return Ok(None);
    }
    open(device)
}

/// A context of a local device, never one that the environment names. `present` says whether a device
/// node exists. `open` opens it, and gives nothing where it does not open.
pub fn local_device_context<
    C,
    P: Fn(&'static str) -> bool,
    O: Fn(&'static str) -> Result<Option<C>, String>,
>(present: P, open: O) -> (r: Result<C, String>)
    requires
        searchable(present, open),
    ensures
        found(present, open, r),
{
    match try_device(&present, &open, TPM_RM_DEVICE) {
        Ok(Some(context)) => return Ok(context),
        Err(error) => return Err(error),
        Ok(None) => {},
    }
    match try_device(&present, &open, TPM_RAW_DEVICE) {
        Ok(Some(context)) => Ok(context),
        Err(error) => Err(error),
        Ok(None) => Err(NO_DEVICE.to_owned()),
    }
}

/// What sealing a key with the device that was found came to.
pub open spec fn sealed<C, S: FnOnce(C, &SealedKey) -> Result<(Vec<u8>, Vec<u8>), String>>(
    context: Result<C, String>,
    create: S,
    key: &SealedKey,
    result: Result<(Vec<u8>, Vec<u8>), String>,
) -> bool {
    match context {
        Ok(context) => call_ensures(create, (context, key), result),
        Err(error) => result == Err::<(Vec<u8>, Vec<u8>), String>(error),
    }
}

/// Seals a key with a local device. `create` has the device make the sealed object, and gives its
/// public and its private part.
pub fn seal<
    C,
    P: Fn(&'static str) -> bool,
    O: Fn(&'static str) -> Result<Option<C>, String>,
    S: FnOnce(C, &SealedKey) -> Result<(Vec<u8>, Vec<u8>), String>,
>(key: &SealedKey, present: P, open: O, create: S) -> (r: Result<(Vec<u8>, Vec<u8>), String>)
    requires
        searchable(present, open),
        forall|context: C|
            found(present, open, Ok(context)) ==> #[trigger] call_requires(create, (context, key)),
    ensures
        exists|context: Result<C, String>|
            found(present, open, context) && #[trigger] sealed(context, create, key, r),
{
    let context = local_device_context(present, open);
    let ghost used = context;
    let r = match context {
        Ok(context) => create(context, key),
        Err(error) => Err(error),
    };
    proof {
        assert(sealed(used, create, key, r));
    }
    r
}

/// The key that bytes hold: there must be as many as a key has.
pub open spec fn is_key(bytes: Seq<u8>, result: Result<SealedKey, String>) -> bool {
    match result {
        Ok(key) => bytes.len() == KEY_LEN && key@ == bytes,
        Err(error) => bytes.len() != KEY_LEN && error@ == keyring::error_text(
            KeyringError::UnexpectedKeyLength(bytes.len() as usize),
        ),
    }
}

/// What unsealing with the device that was found came to, where loading gave `loaded`.
pub open spec fn unsealed<C, L: FnOnce(C) -> Result<Secret, String>>(
    context: Result<C, String>,
    load: L,
    loaded: Result<Secret, String>,
    result: Result<SealedKey, String>,
) -> bool {
    match context {
        Err(error) => result == Err::<SealedKey, String>(error),
        Ok(context) => call_ensures(load, (context,), loaded) && match loaded {
            Err(error) => result == Err::<SealedKey, String>(error),
            Ok(bytes) => is_key(bytes@, result),
        },
    }
}

/// The key that a sealed object holds. `load` has the device load the object and give back its
/// bytes, which must be a key's.
pub fn unseal<
    C,
    P: Fn(&'static str) -> bool,
    O: Fn(&'static str) -> Result<Option<C>, String>,
    L: FnOnce(C) -> Result<Secret, String>,
>(present: P, open: O, load: L) -> (r: Result<SealedKey, String>)
    requires
        searchable(present, open),
        forall|context: C|
            found(present, open, Ok(context)) ==> #[trigger] call_requires(load, (context,)),
    ensures
        exists|context: Result<C, String>, loaded: Result<Secret, String>|
            found(present, open, context) && #[trigger] unsealed(context, load, loaded, r),
{
    let searched = local_device_context(present, open);
    let ghost found_one = searched;
    let context = match searched {
        Err(error) => {
            let r = Err(error);
            proof {
                assert(unsealed(found_one, load, Ok(arbitrary()), r));
            }
            return r;
        },
        Ok(context) => context,
    };
    let loaded = load(context);
    let ghost gave = loaded;
    let r = match loaded {
        Err(error) => Err(error),
        Ok(bytes) => match sealed_key(bytes) {
            Ok(key) => Ok(key),
            Err(error) => Err(error.message()),
        },
    };
    proof {
        assert(unsealed(found_one, load, gave, r));
    }
    r
}

/// The resource manager's device is tried first: where it is there and opens, its context is one that
/// may be found. A search that finds neither device says so.
pub proof fn a_device_that_opens_is_found<
    C,
    P: Fn(&'static str) -> bool,
    O: Fn(&'static str) -> Result<Option<C>, String>,
>(present: P, open: O, context: C, error: String)
    ensures
        call_ensures(present, ("/dev/tpmrm0",), true) && call_ensures(
            open,
            ("/dev/tpmrm0",),
            Ok(Some(context)),
        ) ==> found(present, open, Ok(context)),
        call_ensures(present, ("/dev/tpmrm0",), false) && call_ensures(
            present,
            ("/dev/tpm0",),
            true,
        ) && call_ensures(open, ("/dev/tpm0",), Ok(Some(context))) ==> found(
            present,
            open,
            Ok(context),
        ),
        call_ensures(present, ("/dev/tpmrm0",), false) && call_ensures(
            present,
            ("/dev/tpm0",),
            false,
        ) && error@ == "no usable local TPM 2.0 device"@ ==> found(
            present,
            open,
            Err::<C, String>(error),
        ),
{
}

/// What is found was opened: a context comes from one of the two devices, which was there; and the
/// second is tried only where the first was not there or could not be used.
pub proof fn a_context_comes_from_a_device_that_is_there<
    C,
    P: Fn(&'static str) -> bool,
    O: Fn(&'static str) -> Result<Option<C>, String>,
>(present: P, open: O, context: C)
    requires
        found(present, open, Ok(context)),
    ensures
        (call_ensures(present, ("/dev/tpmrm0",), true) && call_ensures(
            open,
            ("/dev/tpmrm0",),
            Ok(Some(context)),
        )) || (call_ensures(present, ("/dev/tpm0",), true) && call_ensures(
            open,
            ("/dev/tpm0",),
            Ok(Some(context)),
        ) && (call_ensures(present, ("/dev/tpmrm0",), false) || call_ensures(
            open,
            ("/dev/tpmrm0",),
            Ok(None),
        ))),
{
}

/// Bytes are a key exactly when there are 32 of them, and the key is then those bytes.
pub proof fn a_key_has_thirty_two_bytes(bytes: Seq<u8>, result: Result<SealedKey, String>)
    requires
        is_key(bytes, result),
    ensures
        result is Ok <==> bytes.len() == 32,
        result matches Ok(key) ==> key@ == bytes,
{
}

/// A device that was not found is the error of sealing and of unsealing, and nothing is made or loaded
/// then; what a device makes or gives is what comes out.
pub proof fn sealing_needs_a_device<
    C,
    S: FnOnce(C, &SealedKey) -> Result<(Vec<u8>, Vec<u8>), String>,
    L: FnOnce(C) -> Result<Secret, String>,
>(
    context: C,
    missing: String,
    create: S,
    load: L,
    key: &SealedKey,
    made: Result<(Vec<u8>, Vec<u8>), String>,
    loaded: Result<Secret, String>,
    result: Result<SealedKey, String>,
)
    ensures
        sealed(Err::<C, String>(missing), create, key, made) ==> made == Err::<
            (Vec<u8>, Vec<u8>),
            String,
        >(missing),
        sealed(Ok(context), create, key, made) ==> call_ensures(create, (context, key), made),
        unsealed(Err::<C, String>(missing), load, loaded, result) ==> result == Err::<
            SealedKey,
            String,
        >(missing),
        unsealed(Ok(context), load, loaded, result) ==> call_ensures(load, (context,), loaded),
        unsealed(Ok(context), load, loaded, result) ==> (loaded matches Err(failed) ==> result
            == Err::<SealedKey, String>(failed)),
        unsealed(Ok(context), load, loaded, result) ==> (loaded matches Ok(bytes) ==> (result is Ok
            <==> bytes@.len() == 32)),
        unsealed(Ok(context), load, loaded, result) ==> (loaded matches Ok(bytes) ==> (
        result matches Ok(found) ==> found@ == bytes@)),
{
}

} // verus!
