//! The kernel object: the kernel-task scheduler and the message bus, and
//! the first steps of boot that only decide.
use vstd::prelude::*;
use crate::ipc::{Message, MessageBus};
use crate::memory::FramebufferMapping;
use crate::scheduler::{Scheduler, Task, KERNEL_TASKS};

verus! {

/// The kernel.
pub struct Kernel {
    pub scheduler: Scheduler,
    pub ipc: MessageBus,
}

impl Kernel {
    /// A kernel with no tasks and no messages.
    pub fn bootstrap() -> (r: Kernel)
        ensures
            r.scheduler.wf(),
            r.scheduler.cursor == 0,
            r.scheduler.ticks == 0,
            forall|i: int| 0 <= i < KERNEL_TASKS ==> r.scheduler.tasks@[i] is None,
            r.ipc.last is None,
    {
        Kernel { scheduler: Scheduler::new(), ipc: MessageBus::new() }
    }

    /// Starts the kernel services: the desktop and idle tasks in the first
    /// two slots of an empty table, and the desktop told to paint.
    pub fn start_services(&mut self)
        requires forall|i: int| 0 <= i < KERNEL_TASKS ==> old(self).scheduler.tasks@[i] is None,
        ensures
            final(self).scheduler.tasks@[0] == Some(Task { name: "desktop", ticks: 0 }),
            final(self).scheduler.tasks@[1] == Some(Task { name: "idle", ticks: 0 }),
            forall|i: int| 2 <= i < KERNEL_TASKS ==> final(self).scheduler.tasks@[i] is None,
            final(self).scheduler.cursor == old(self).scheduler.cursor,
            final(self).scheduler.ticks == old(self).scheduler.ticks,
            final(self).ipc.last matches Some(m) && m.from@ == "kernel"@ && m.to@ == "desktop"@ && m.body@ == "paint"@,
    {
        let ghost t0 = self.scheduler.tasks@;
        self.scheduler.spawn("desktop");
        proof {
            assert(t0[0] is None);
            assert(self.scheduler.tasks@ == t0.update(0, Some(Task { name: "desktop", ticks: 0 })));
        }
        let ghost t1 = self.scheduler.tasks@;
        self.scheduler.spawn("idle");
        proof {
            assert(t1[1] is None && t1[0] is Some);
            assert(self.scheduler.tasks@ == t1.update(1, Some(Task { name: "idle", ticks: 0 })));
        }
        self.ipc.publish(Message::new("kernel", "desktop", "paint"));
    }
}

/// Where the framebuffer at `address` (a direct-map address) lies in
/// physical memory, when the direct-map offset is known.
pub fn framebuffer_mapping(address: u64, byte_len: u64, hhdm_offset: Option<u64>) -> (r: Option<FramebufferMapping>)
    requires hhdm_offset matches Some(h) ==> address >= h,
    ensures
        r == match hhdm_offset {
            Some(h) => Some(FramebufferMapping { virt: address, phys: (address - h) as u64, len: byte_len }),
            None => None,
        },
{
    match hhdm_offset {
        Some(h) => Some(FramebufferMapping { virt: address, phys: address - h, len: byte_len }),
        None => None,
    }
}

} // verus!
