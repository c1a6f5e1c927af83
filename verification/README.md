# modbus_client

The verified core of a Modbus TCP/RTU client with a graphical table of
coils, discrete inputs, input registers and holding registers.

- `src/` is the library, verified with Verus:
  - `values`, `display`, `text`: register types, display formats, and the
    text of register values (binary, octal, decimal, hexadecimal), with the
    proof that every shown value reads back as itself, except a float shown
    in decimal, whose text the program makes and reads outside the library;
  - `words`: values of 16, 32 and 64 bits as register words, with word and
    byte swapping, and the proof that encoding and decoding undo each other;
  - `share_data`: the four data tables, the per-register type and format,
    reading a register as text and turning text into register words, with
    the proof that retyping a register keeps the table tiled by its values;
  - `chunked`: reads split into requests of at most 32 items;
  - `session`: what the client shows and does with the connection after
    each poll and each command;
  - `config`: connection settings and commands;
  - `fonts`: which font files are added and in what order.
- `app/` is the program: command line, the tokio tasks that talk Modbus,
  the egui window, and the floating-point text of float registers.
- `tests/` runs the library on concrete values.
