use vstd::prelude::*;
use vstd::string::StringSliceAdditionalSpecFns;

verus! {

/// True when some byte of `s` is the C string terminator.
pub open spec fn has_nul(s: Seq<u8>) -> bool {
    exists|i: int| 0 <= i < s.len() && s[i] == 0
}

/// The null-terminated byte form of a device name, ready to hand to a
/// reading backend. Fails exactly when the name holds an embedded
/// terminator — a local precondition failure, caught before any foreign
/// call could be attempted.
pub fn device_bytes(device: &str) -> (r: Result<Vec<u8>, String>)
    ensures
        r.is_ok() <==> !has_nul(device.spec_bytes()),
        r matches Ok(v) ==> v@ == device.spec_bytes() + seq![0u8],
        r matches Err(m) ==> m@ == "device name holds a null byte"@,
{
    let bytes = device.as_bytes();
    let n = bytes.len();
    let mut out: Vec<u8> = Vec::new();
    let mut i: usize = 0;
    while i < n
        invariant
            0 <= i <= n,
            n == bytes@.len(),
            bytes@ == device.spec_bytes(),
            out@ == bytes@.take(i as int),
            forall|j: int| 0 <= j < i ==> bytes@[j] != 0,
        decreases n - i,
    {
        let b = bytes[i];
        if b == 0 {
            return Err("device name holds a null byte".to_owned());
        }
        out.push(b);
        proof {
            assert(out@ =~= bytes@.take(i + 1));
        }
        i += 1;
    }
    out.push(0);
    proof {
        assert(bytes@.take(n as int) =~= bytes@);
        assert(out@ =~= device.spec_bytes() + seq![0u8]);
    }
    Ok(out)
}

} // verus!
