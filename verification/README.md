# timeit

A precise command timing utility. `src/` is a Verus library holding all of the
program's decisions, each with a proved contract: reading durations (`30s`, `1.5ms`,
`5m`), reading the command line and profile files, displaying durations in smart units
or as decimal seconds, milliseconds, microseconds or nanoseconds, and summarising the
measured runs (average, median, minimum, maximum). `app/main.rs` is the program around
it: it reads the arguments and profile files, prints the help page, starts the
commands, measures them with the system clock, and prints the results.

Measured durations are whole nanoseconds throughout the library, and the decimal display
modes render them exactly. Reading a duration such as `1.5ms` gives its validated number
text and its unit; the program turns that into nanoseconds with an `f64` product.
