# SeRTOS kernel library

A small real-time kernel for Cortex-M (QEMU `lm3s6965evb`), written in Verus.
The kernel's decisions live in the verified library under `src/`; the
hardware layer under `app/` carries them out.

## Library (`src/`)

- `scheduler.rs`: the task table, priority round-robin selection, time
  slices, blocking and waking, sleeping, the kernel tick, spawning and
  starting. Blocking operations return a `Reschedule` or a `WaitStep` that
  names the context switch to perform; the task later resumes the operation
  with the reason it was woken.
- `task.rs`: task control blocks, their stacks and initial exception frames.
- `timer.rs`: the wrapping tick counter, deadlines, millisecond conversion,
  SysTick reload values and tickless idle.
- `semaphore.rs`, `mutex.rs`, `queue.rs`, `event_flags.rs`: synchronization
  objects with FIFO waiter queues (`waiters.rs`).
- `ring_buffer.rs`, `memory.rs`: a FIFO ring and a fixed-block allocator.
- `priority.rs`: the table of priorities inherited through mutexes.
- `reliability.rs`: the trace ring, stack checks and deadlock detection.
- `sync.rs`: the nesting rules of interrupt-masking critical sections.

Each public function states its effect on the views of these types in its
contract; the `lemma_*` proof functions state the laws that relate them.

## Hardware layer (`app/`)

Boot and vector table, PendSV/SVC context switches, SysTick and UART
registers, PRIMASK critical sections, the idle task, and the loops that run
blocking operations to completion.
