//! What the protocol needs to know about the attached keyboard.
use vstd::prelude::*;

use crate::platform_spec::PlatformSpec;

verus! {

/// The attached device: the flash layout of its microcontroller, and whether
/// it is to be rebooted into its firmware once a cycle is over.
#[derive(Clone, Copy, PartialEq, Eq, Structural, Debug)]
pub struct DeviceSpec {
    pub platform: PlatformSpec,
    pub reboot: bool,
}

/// Number of whole flash pages in the firmware section.
pub open spec fn spec_num_pages(spec: DeviceSpec) -> nat
    recommends
        spec.platform.page_size > 0,
{
    (spec.platform.firmware_size / spec.platform.page_size) as nat
}

/// The firmware section holds the whole pages and less than one more page.
pub proof fn lemma_num_pages_bounds(spec: DeviceSpec)
    requires
        spec.platform.page_size > 0,
    ensures
        spec_num_pages(spec) * spec.platform.page_size <= spec.platform.firmware_size,
        spec.platform.firmware_size < (spec_num_pages(spec) + 1) * spec.platform.page_size,
{
    let n = spec_num_pages(spec) as int;
    let ps = spec.platform.page_size as int;
    let fs = spec.platform.firmware_size as int;
    assert(n * ps <= fs && fs < (n + 1) * ps) by (nonlinear_arith)
        requires
            ps > 0,
            fs >= 0,
            n == fs / ps,
    ;
}

impl DeviceSpec {
    /// Number of whole flash pages in the firmware section.
    pub fn num_pages(&self) -> (n: usize)
        requires
            self.platform.page_size > 0,
        ensures
            n == spec_num_pages(*self),
    {
        self.platform.firmware_size / self.platform.page_size
    }
}

} // verus!
