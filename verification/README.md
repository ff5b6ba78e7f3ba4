# translators

A Hack assembler and a stack-machine (VM) to Hack assembly translator, written
in Verus and verified.

- `src/assembler`: the assembler's grammar (a verified parser over characters),
  the two passes (labels and variables, then encoding) and the binary listing.
- `src/vm_translator`: the VM grammar, the assembly snippets the translation is
  built from, the translation of a whole program, and what each command's code
  does on the Hack computer.
- `src/instructions`: the operator model, the field encodings (`dest`, `comp`,
  `jump`), predefined symbols, opcode generation, and a model of the Hack
  computer (registers, memory, ALU, program counter).
- `src/project6`: the line-by-line stand-alone assembler.
- `src/scan.rs`, `src/text_util.rs`, `src/symbol_table.rs`: character scanning,
  numerals and the symbol table.
- `app/`: the command-line program (file I/O, error reports).

Among the proved properties: assembly text written by the crate reads back as
the operators it came from; the translation of any VM program is assembly that
the assembler reads back exactly; labels stand for the number of instructions
before them; variables get distinct RAM addresses from 16; each instruction
that is not a label yields exactly one machine word; each `comp` encoding
makes the Hack ALU compute what its mnemonic names; and, in an assembled
translation, the code of every VM command does on the Hack computer what the
command means for the stack, then continues with the next command; the
machine words the assembler writes run, cycle by cycle, as the instructions
they encode.
