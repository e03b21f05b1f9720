//! AArch64 power management through PSCI.

use vstd::prelude::*;
use vstd::string::StringSliceAdditionalSpecFns;

use crate::fdt_layout::{check_fdt_layout, fdt_layout_ok};
use crate::lazy_static::LazyStatic;

verus! {

/// The PSCI conduit: secure monitor call or hypervisor call.
#[derive(Debug, Clone, Copy, PartialEq, Eq, Structural)]
pub enum Method {
    Smc,
    Hvc,
}

/// The conduit that a `method` property names: `smc` or `hvc`.
pub fn parse_method(value: &str) -> (r: Option<Method>)
    ensures
        r == method_of(value.spec_bytes()),
{
    parse_method_bytes(value.as_bytes())
}

impl Method {
    /// The conduit's name as the boot log prints it.
    pub fn as_str(&self) -> (r: &'static str)
        ensures
            *self == Method::Smc ==> r@ == "SMC"@,
            *self == Method::Hvc ==> r@ == "HVC"@,
    {
        match self {
            Method::Smc => "SMC",
            Method::Hvc => "HVC",
        }
    }
}

/// The physical entry address of secondary CPUs: the virtual address of
/// the secondary entry minus the image offset.
pub fn secondary_entry_addr(start_secondary: usize, kcode_offset: usize) -> (r: usize)
    requires
        start_secondary >= kcode_offset,
    ensures
        r == start_secondary - kcode_offset,
{
    start_secondary - kcode_offset
}

/// The conduit that the bytes of a `method` property name, if any.
pub open spec fn method_of(b: Seq<u8>) -> Option<Method> {
    if b == seq![115u8, 109u8, 99u8] {
        Some(Method::Smc)
    } else if b == seq![104u8, 118u8, 99u8] {
        Some(Method::Hvc)
    } else {
        None
    }
}

/// What `fdt_parser` makes of the `method` property of the first node of
/// the device-tree blob `blob` compatible with `arm,psci-1.0`,
/// `arm,psci-0.2` or `arm,psci`: its bytes; `None` when the blob does not
/// parse or there is no such node or property.
pub uninterp spec fn fdt_psci_method_of(blob: Seq<u8>) -> Option<Seq<u8>>;

/// `Fdt::from_bytes(blob)`, `find_compatible` with the three PSCI
/// compatibles, the first node's `method` property and its string, as
/// bytes. The result is `fdt_psci_method_of(blob)`.
/// It requires `fdt_layout_ok(blob)`: on other blobs the parser can slice
/// past the blob's end or loop without end.
#[verifier::external_body]
fn fdt_psci_method(blob: &[u8]) -> (r: Option<Vec<u8>>)
    requires
        fdt_layout_ok(blob@),
    ensures
        r is None <==> fdt_psci_method_of(blob@) is None,
        r matches Some(v) ==> fdt_psci_method_of(blob@) == Some(v@),
{
    let fdt = fdt_parser::base::Fdt::from_bytes(blob).ok()?;
    let node = fdt.find_compatible(&["arm,psci-1.0", "arm,psci-0.2", "arm,psci"]).next()?.ok()?;
    let prop = node.find_property("method").ok()?;
    Some(prop.str().ok()?.as_bytes().to_vec())
}

/// The conduit that the bytes `b` name, if any.
pub fn parse_method_bytes(b: &[u8]) -> (r: Option<Method>)
    ensures
        r == method_of(b@),
{
    if b.len() == 3 && b[0] == 115 && b[1] == 109 && b[2] == 99 {
        assert(b@ =~= seq![115u8, 109u8, 99u8]);
        Some(Method::Smc)
    } else if b.len() == 3 && b[0] == 104 && b[1] == 118 && b[2] == 99 {
        assert(b@ =~= seq![104u8, 118u8, 99u8]);
        Some(Method::Hvc)
    } else {
        assert(b@ != seq![115u8, 109u8, 99u8]);
        assert(b@ != seq![104u8, 118u8, 99u8]);
        None
    }
}

/// Records the PSCI conduit that the device-tree blob `blob` names:
/// `Ok(None)`, recording nothing, when there is no device tree, when it does
/// not have the layout that the parser walks safely, or when it has no PSCI
/// `method`; `Err` with the property's bytes, recording nothing, when it
/// names neither `smc` nor `hvc`; else the conduit.
pub fn init_by_fdt(slot: &mut LazyStatic<Method>, blob: Option<&[u8]>) -> (r: Result<Option<Method>, Vec<u8>>)
    requires
        !old(slot).is_initialized(),
    ensures
        blob is None ==> r == Ok::<Option<Method>, Vec<u8>>(None) && *final(slot) == *old(slot),
        blob matches Some(blob) ==> if !fdt_layout_ok(blob@) {
            r == Ok::<Option<Method>, Vec<u8>>(None) && *final(slot) == *old(slot)
        } else {
            match fdt_psci_method_of(blob@) {
                None => r == Ok::<Option<Method>, Vec<u8>>(None) && *final(slot) == *old(slot),
                Some(m) => match method_of(m) {
                    None => r matches Err(e) && e@ == m && *final(slot) == *old(slot),
                    Some(c) => r == Ok::<Option<Method>, Vec<u8>>(Some(c)) && final(slot).value() == Some(c)
                        && final(slot).is_initialized(),
                },
            }
        },
{
    let blob = match blob {
        None => return Ok(None),
        Some(b) => b,
    };
    if !check_fdt_layout(blob) {
        return Ok(None);
    }
    let name = match fdt_psci_method(blob) {
        None => return Ok(None),
        Some(n) => n,
    };
    match parse_method_bytes(name.as_slice()) {
        None => Err(name),
        Some(c) => {
            slot.init(c);
            Ok(Some(c))
        },
    }
}

} // verus!
