//! What is said where a platform lacks a part.
use vstd::prelude::*;

verus! {

/// The VM driver cannot be used on Windows.
pub fn windows_unsupported() -> (r: &'static str)
    ensures
        r@ == "openshell-driver-vm is unsupported on Windows"@,
{
    "openshell-driver-vm is unsupported on Windows"
}

/// The policy prover cannot be used on Windows: whatever is asked of it is refused.
pub fn prove(
    policy_path: &str,
    credentials_path: &str,
    registry_dir: Option<&str>,
    accepted_risks_path: Option<&str>,
    compact: bool,
) -> (r: Result<i32, String>)
    ensures
        r is Err,
        r->Err_0@ == "policy prover is not available on Windows in this build"@,
{
    Err("policy prover is not available on Windows in this build".to_owned())
}

/// The sandbox supervisor cannot be used on Windows.
pub fn sandbox_unsupported() -> (r: &'static str)
    ensures
        r@ == "openshell-sandbox supervisor is not available on Windows"@,
{
    "openshell-sandbox supervisor is not available on Windows"
}

} // verus!
