# wallet

A monitor for trusted processes on a confidential machine. It runs above the
guest: it hands out memory, builds and takes apart the page tables of processes,
serves the calls that processes make, keeps models and programs whose digests it
has measured, and relays the calls of GPU clients to the services that answer
them.

- `src/` is the library. What it does to the machine it does to a `Machine`:
  memory as words, a pool of free pages, and a list of privileged instructions
  that are to be carried out. Every function states what it does in its contract;
  functions named `law_...` state what holds of several of them together.
- `app/` carries out what cannot be verified: the privileged instructions, the
  switch into a process, and the loops that wait for something.
- `tests/` runs the library on concrete machines.

Things that happen outside the library come in as arguments: the time, the number
of the core, the registers of a process, and what an instruction came to. Where
the library has to wait, it says what for, and is called again afterwards.
