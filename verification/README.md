# multiprocessor

Schedulability checking of asynchronous periodic task sets with arbitrary deadlines on
`m` identical cores, under partitioned EDF, global EDF, EDF(k) and global
deadline-monotonic scheduling.

```
multiprocessor <task_file> <m> -v global|partitioned|dm|<k> [-w <w>] [-h ff|nf|bf|wf] [-s iu|du]
```

The program exits with 0 (schedulable, simulated), 1 (schedulable, sufficient condition),
2 (not schedulable, simulated), 3 (not schedulable, necessary condition failed) or 4
(cannot tell).

## Layout

- `src/` is the verified library, checked by Verus:
  - `constants.rs`: time steps, identifiers, verdicts and policies;
  - `lcm.rs`: greatest common divisor and least common multiple, with their laws;
  - `job.rs`, `task.rs`, `taskset.rs`: jobs, periodic tasks and their releases, task
    sets, and the global and busy-period feasibility intervals;
  - `deadline_order.rs`: the stable sort of tasks by reported deadline;
  - `taskfile.rs`: reading a task set from the bytes of a CSV file (the records come
    from the `csv` crate);
  - `partition.rs`: task sets per processor;
  - `migrations.rs`, `worker.rs`: per-task migration counts;
  - `scheduler/`: earliest-deadline-first selection, the core and its uniprocessor EDF
    simulation, the job selection of the global schedulers, one time step of the
    global EDF(k) and deadline-monotonic simulations, round robin, and the scheduler
    states;
  - `core_model.rs`: the processor of the task-set model.
- `app/` is the program around it: the command line, reading the task file from disk,
  everything computed on floating-point utilisations (utilisation sums, schedulability
  bounds, partitioning heuristics, core budgets, which it hands to the library as
  tables of admissions) and the loops of the multi-core simulations, some of which run
  on threads.
- `tests/` runs the library on concrete task sets.
