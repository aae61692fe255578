//! The installable NeuroPipe services as the settings window sees them:
//! their systemd unit names, tab labels, and the installed subset in a fixed
//! tab order.

use vstd::prelude::*;

verus! {

/// One installable NeuroPipe service.
#[derive(Debug, Clone, Copy, PartialEq, Eq, Structural)]
pub enum Service {
    Stt,
    Assistant,
    Tts,
}

/// All services, in tab order.
pub open spec fn all_services() -> Seq<Service> {
    seq![Service::Stt, Service::Assistant, Service::Tts]
}

/// The systemd user unit that runs `service`.
pub open spec fn spec_unit_name(service: Service) -> Seq<char> {
    match service {
        Service::Stt => "neuropipe-stt.service"@,
        Service::Assistant => "neuropipe-assistant.service"@,
        Service::Tts => "neuropipe-tts.service"@,
    }
}

/// The tab title of `service`.
pub open spec fn spec_label(service: Service) -> Seq<char> {
    match service {
        Service::Stt => "STT"@,
        Service::Assistant => "Assistant"@,
        Service::Tts => "TTS"@,
    }
}

/// The services of `all_services()` whose flag in `present` is set, in
/// order.
pub open spec fn spec_installed(present: Seq<bool>, k: int) -> Seq<Service>
    decreases k,
{
    if k <= 0 {
        Seq::empty()
    } else if present[k - 1] {
        spec_installed(present, k - 1).push(all_services()[k - 1])
    } else {
        spec_installed(present, k - 1)
    }
}

impl Service {
    /// All services, in tab order.
    pub const ALL: [Service; 3] = [Service::Stt, Service::Assistant, Service::Tts];

    /// The systemd user unit that runs this service.
    pub fn unit_name(self) -> (r: &'static str)
        ensures
            r@ == spec_unit_name(self),
    {
        match self {
            Service::Stt => "neuropipe-stt.service",
            Service::Assistant => "neuropipe-assistant.service",
            Service::Tts => "neuropipe-tts.service",
        }
    }

    /// Human-readable label used for the tab title.
    pub fn label(self) -> (r: &'static str)
        ensures
            r@ == spec_label(self),
    {
        match self {
            Service::Stt => "STT",
            Service::Assistant => "Assistant",
            Service::Tts => "TTS",
        }
    }

    /// The installed services in tab order, `present[i]` telling whether
    /// the unit of `ALL[i]` is installed.
    pub fn installed(present: [bool; 3]) -> (r: Vec<Service>)
        ensures
            r@ == spec_installed(present@, 3),
    {
        let all = [Service::Stt, Service::Assistant, Service::Tts];
        assert(all@ == all_services());
        let mut r: Vec<Service> = Vec::new();
        let mut k: usize = 0;
        while k < 3
            invariant
                0 <= k <= 3,
                all@ == all_services(),
                r@ == spec_installed(present@, k as int),
            decreases 3 - k,
        {
            if present[k] {
                r.push(all[k]);
            }
            k = k + 1;
        }
        r
    }
}

/// The installed services form an ordered part of `ALL`: there are at most
/// as many, each one is marked present, and they keep the order of `ALL`.
pub proof fn lemma_installed_is_ordered_subset(present: Seq<bool>, k: int)
    requires
        present.len() == 3,
        0 <= k <= 3,
    ensures
        spec_installed(present, k).len() <= k,
        forall|i: int|
            0 <= i < spec_installed(present, k).len() ==> {
                let s = #[trigger] spec_installed(present, k)[i];
                &&& 0 <= service_rank(s) < k
                &&& present[service_rank(s)]
                &&& all_services()[service_rank(s)] == s
            },
        forall|i: int, i2: int|
            0 <= i < i2 < spec_installed(present, k).len() ==> service_rank(
                #[trigger] spec_installed(present, k)[i],
            ) < service_rank(#[trigger] spec_installed(present, k)[i2]),
    decreases k,
{
    if k > 0 {
        lemma_installed_is_ordered_subset(present, k - 1);
    }
}

/// Position of a service in `ALL`.
pub open spec fn service_rank(service: Service) -> int {
    match service {
        Service::Stt => 0,
        Service::Assistant => 1,
        Service::Tts => 2,
    }
}

} // verus!
