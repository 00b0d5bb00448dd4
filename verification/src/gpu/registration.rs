//! What holds after the guest has registered what engines use.
use vstd::prelude::*;
use crate::exclusive::ExclusiveView;
use crate::gpu::direct;
use crate::gpu::direct::GpuView;
use crate::gpu::heap;
use crate::memory::machine::MachineState;
use crate::process_manager::process_paging::soundness;
use crate::RequestParams;

verus! {

/// A service that was registered for an engine is the one that its calls go to;
/// one that was registered for none in particular serves the engines without one
/// of their own. The services of all others stay.
pub proof fn law_registered_service_is_used(g: GpuView, params: RequestParams, core: int)
    requires
        g.service_pages.len() == 64,
        0 <= core < 64,
    ensures
        ({
            let (h, answer) = direct::service_registered_for(g, params);
            &&& answer.rcx == 0
            &&& params.r8 < 64 && params.rcx != 0 ==> h.service_for(params.r8 as int) == params.rcx
            &&& params.r8 < 64 && core != params.r8 ==> h.service_for(core) == g.service_for(core)
            &&& params.r8 >= 64 ==> h.service_for(core) == (if g.service_pages[core] == 0 {
                params.rcx
            } else {
                g.service_for(core)
            })
            &&& h.engaged(core) == g.engaged(core)
        }),
{
}

/// An engine that was registered is polled: for the page that the guest named,
/// in the address space that it named. It is that of the core that was named, or
/// of the core itself; the answer says whether that core is with the monitor. No
/// other engine is changed.
pub proof fn law_registered_engine_is_polled(
    g: GpuView,
    ex: ExclusiveView,
    params: RequestParams,
    apic_id: u32,
    core: int,
)
    requires
        g.engine_pages.len() == 64,
        g.engine_page_table.len() == 64,
        g.engine_is_trustlet.len() == 64,
        apic_id < 64,
        0 <= core < 64,
    ensures
        ({
            let (h, answer) = direct::engine_registered_for(g, ex, params, apic_id);
            let named = (params.r8 < 64 && core == params.r8) || (params.r8 >= 64 && core
                == apic_id);
            if named {
                &&& h.engine_pages[core] == params.rcx
                &&& h.engine_page_table[core] == params.rdx
                &&& !h.engine_is_trustlet[core]
                &&& h.engaged(core) == (params.rcx != 0)
                &&& answer.rcx == 1 <==> ex.control[core] != 0
                &&& answer.rcx == 0 <==> ex.control[core] == 0
            } else {
                &&& h.engine_pages[core] == g.engine_pages[core]
                &&& h.engine_page_table[core] == g.engine_page_table[core]
                &&& h.engine_is_trustlet[core] == g.engine_is_trustlet[core]
            }
        }),
{
}

/// A window that the guest asks for is the one that is registered: the engine's
/// list names the pages that the guest's names. What is no window is refused, and
/// changes nothing.
pub proof fn law_requested_window_is_registered(
    s: MachineState,
    g: GpuView,
    params: RequestParams,
)
    requires
        soundness::pool_sound(s),
        g.window_lists.len() == 64,
        g.window_npages.len() == 64,
        params.rcx % 4096 == 0,
        !soundness::in_pool(s.pool, params.rcx),
        if g.window_list(params.r8) == 0 {
            s.pool.available() > 0
        } else {
            soundness::is_page(s, g.window_list(params.r8)) && g.window_list(params.r8)
                != params.rcx
        },
    ensures
        ({
            let (t, h, answer) = direct::window_requested(s, g, params);
            if direct::window_ok(params.rcx, params.rdx) {
                &&& answer.rcx == 0
                &&& h.window_list(params.r8) != 0
                &&& params.r8 < 64 && params.rdx > 0 ==> h.window(params.r8 as int) == (
                    h.window_list(params.r8),
                    params.rdx,
                )
                &&& forall|i: int|
                    0 <= i < params.rdx ==> #[trigger] t.rd(h.window_list(params.r8), i) == s.rd(
                        params.rcx,
                        i,
                    )
            } else {
                answer.rcx != 0 && t == s && h == g
            }
        }),
{
    if direct::window_ok(params.rcx, params.rdx) {
        heap::law_registered_window_is_the_guests(s, g, params.rcx, params.rdx, params.r8);
    }
}

/// A piece of a heap that the guest asks for is the one that is registered: from
/// its place in the heap on, the heap names the pages that the guest's list
/// names, and it ends with the piece. What is refused is told so.
pub proof fn law_requested_heap_is_registered(s: MachineState, g: GpuView, params: RequestParams)
    requires
        g.wf(),
        g.heap_dirs.len() == 64,
        g.heap_npages.len() == 64,
        g.heap_mapped.len() == 64,
        soundness::pool_sound(s),
        heap::piece_apart(s, g, params.rcx, params.r8),
        heap::piece_fits(s, g, params.rcx, params.rdx, params.r8, params.r9),
    ensures
        ({
            let (t, h, answer) = direct::heap_requested(s, g, params);
            let accepted = direct::heap_registered(
                s,
                g,
                params.rcx,
                params.rdx,
                params.r8,
                params.r9,
            ).2;
            &&& accepted <==> answer.rcx == 0
            &&& accepted ==> {
                &&& h.heap_len(params.r8) == params.r9 + params.rdx
                &&& forall|i: int|
                    0 <= i < params.rdx ==> #[trigger] direct::heap_entry(
                        t,
                        h.heap_dir(params.r8),
                        params.r9 + i,
                    ) == s.rd(params.rcx, i)
            }
        }),
{
    if direct::heap_registered(s, g, params.rcx, params.rdx, params.r8, params.r9).2 {
        heap::law_registered_heap_is_the_guests(
            s,
            g,
            params.rcx,
            params.rdx,
            params.r8,
            params.r9,
        );
    }
}

} // verus!
