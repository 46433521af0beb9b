# neander_compiler_stack

A compiler stack for the Neander machine, an 8-bit accumulator machine with 256 bytes of
memory, written in Verus:

- `calc`: a lexer and parser for expressions of numbers and parenthesised expressions
  joined by `+` and `-`, and a code generator that writes Neander assembly leaving the
  value in the accumulator: each operation stores its result into `t4`, and right
  operands that are themselves operations are kept in the pseudo-registers `t0`..`t3`;
- `assembler`: a lexer and parser for Neander assembly (a `setup` section of data
  declarations and a `text` section of instructions), a symbol table that lays out the
  data from address 250 down and the pseudo-registers `t0`..`t4` at 251..255, and the
  encoder that writes a 516-byte `.MEM` image, expanding the `SUB` macro into `NOT`,
  `ADD`, `NOT`;
- `interpreter`: the machine, which loads a `.MEM` image and runs it until `HLT`; `ADD`
  wraps around on the 8-bit accumulator, and the N and Z flags follow the last value the
  accumulator took;
- `pipeline`: an expression all the way to a `.MEM` image;
- `text`: characters, decimal numbers and the other text helpers the rest shares.

Every function in `src/` carries a contract that Verus proves; the proof functions state
the laws that tie the parts together (for instance, that loading the image the assembler
writes gives the interpreter the assembled memory back, that the flags follow the
accumulator over a whole run, and that the assembly generated for an expression is read
by the assembler, assembled, loaded and run to `HLT` with the value of the expression
modulo 256 in the accumulator).

`app/` holds the command line tools (`calc`, `assembler`, `interpreter`) as subcommands of
one program: argument handling, files and the standard streams.
