# gpu_buffers

Bookkeeping for GPU buffers in a compositor, verified with Verus.

A buffer that is never given up costs video memory that no heap profiler sees.
This library counts what is created and what is given up, so that the difference
shows, and names the code path that a leaked buffer came from.

- `src/allocator/dmabuf/`: DMA buffers. References to a buffer are counted in a
  registry; with the last one the buffer goes. Planes can be mapped, synchronized
  and waited for.
- `src/allocator/swapchain/`: swapchains of four slots each. A slot that is given
  back is handed out again with its buffer, its age and what is kept with it. The
  slots that have a buffer are listed over all swapchains.
- `src/gles/`: lifecycle counters of GL objects, and queues of cleanup requests
  that account for every request once.
- `src/signature.rs`, `src/text.rs`: backtraces reduced to the frames that matter.

The functions whose names begin with `law_` state what holds of each part as a
whole: that the counters agree with the requests that are pending, that the
registry counts exactly the references that there are, that a held slot is not
handed out again.

`app/` is ordinary Rust around the library: the process-wide state behind locks,
handles that give up what they hold when they are dropped, and the system calls.
