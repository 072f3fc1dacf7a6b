use vstd::prelude::*;

verus! {

/// The nesting state of interrupt-masking critical sections: how deep they
/// nest and the interrupt mask the outermost one found on entry.
pub struct CriticalNesting {
    depth: u32,
    outer_primask: u32,
}

/// The plain values of a `CriticalNesting`.
pub struct NestingView {
    pub depth: u32,
    pub outer_primask: u32,
}

/// The nesting after entering a critical section that found mask `primask`:
/// only the outermost entry saves it.
pub open spec fn entered(n: NestingView, primask: u32) -> NestingView {
    NestingView {
        depth: vstd::wrapping::u32_specs::wrapping_add(n.depth, 1),
        outer_primask: if n.depth == 0 { primask } else { n.outer_primask },
    }
}

/// Leaving a critical section: the outermost exit restores the saved mask.
pub open spec fn exited(n: NestingView) -> (Option<u32>, NestingView) {
    (
        if n.depth == 1 { Some(n.outer_primask) } else { None },
        NestingView { depth: vstd::wrapping::u32_specs::wrapping_sub(n.depth, 1), ..n },
    )
}

impl View for CriticalNesting {
    type V = NestingView;

    closed spec fn view(&self) -> NestingView {
        NestingView { depth: self.depth, outer_primask: self.outer_primask }
    }
}

impl CriticalNesting {
    /// Outside every critical section.
    pub fn new() -> (r: Self)
        ensures
            r@ == (NestingView { depth: 0, outer_primask: 0 }),
    {
        CriticalNesting { depth: 0, outer_primask: 0 }
    }

    /// Enters a critical section; `primask` is the interrupt mask in force
    /// before interrupts were disabled for it.
    pub fn enter(&mut self, primask: u32)
        ensures
            final(self)@ == entered(old(self)@, primask),
    {
        let previous = self.depth;
        self.depth = self.depth.wrapping_add(1);
        if previous == 0 {
            self.outer_primask = primask;
        }
    }

    /// Leaves a critical section; returns the mask to restore when it was
    /// the outermost one.
    pub fn exit(&mut self) -> (r: Option<u32>)
        ensures
            (r, final(self)@) == exited(old(self)@),
    {
        let previous = self.depth;
        self.depth = self.depth.wrapping_sub(1);
        if previous == 1 {
            Some(self.outer_primask)
        } else {
            None
        }
    }
}

/// Nested critical sections restore the interrupt mask once, at the
/// outermost exit, to what it was before the outermost entry: from outside
/// every section, entering with `p0`, then with `p1` while inside, and
/// leaving both, the inner exit restores nothing, the outer one restores
/// `p0`, and the nesting is back outside.
pub proof fn lemma_nested_sections_restore_outer(n: NestingView, p0: u32, p1: u32)
    requires
        n.depth == 0,
    ensures
        ({
            let a = entered(n, p0);
            let b = entered(a, p1);
            let (r1, c) = exited(b);
            let (r2, d) = exited(c);
            &&& r1 is None
            &&& r2 == Some(p0)
            &&& d.depth == 0
        }),
{
}

/// Inside a section, entering and leaving another one changes nothing.
pub proof fn lemma_inner_section_is_transparent(n: NestingView, p: u32)
    requires
        0 < n.depth < u32::MAX,
    ensures
        exited(entered(n, p)) == (None::<u32>, n),
{
}

} // verus!
