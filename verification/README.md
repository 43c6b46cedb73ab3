# aster_runtime

The runtime that just-in-time compiled Aster programs call. It owns the memory of
one execution (paged arenas with temporary scopes), the strings, arrays, lists
and dictionaries in it, and the way programs reach the terminal and the files of
the host.

* `src/` is the library. Its functions state what they return and what they
  change, and Verus proves it. Proof functions named `law_...` state what holds
  across functions, and over any number of calls.
* `tests/` runs the library on concrete values.
* `app/` is the host side: the devices of the process, its clocks, randomness,
  floating point and threads.

An execution allocates in an `ExecutionContext`. Addresses are numbers that its
arenas hand out, so a program that holds a wrong one gets a reported error. They
mean something in that context only: every context numbers its memory from the
same start, and two contexts may hand out the same number. The first error that is
reported stays.
