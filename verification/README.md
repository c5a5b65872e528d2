# fasm-cli

The command line tools around FASM (FPGA assembly) files and the Xilinx
bitstream tools: `fasm` (`fasm/tool.py`), `fasm2frames`,
`uray-fasm2frames`, `xcfasm`, `xc7frames2bit` / `xcframes2bit`, `bitread`
and `fasm-db-cache`.

`src/` is the verified library (Verus). It holds what the tools decide
and compute, over plain values:

* `argparse` (with `argparse::format` and `argparse::tool_args`): Python
  3.11's `argparse` for the tools' parsers, help and usage texts,
  `textwrap.wrap`, and what the `fasm` tool's parser makes of a file name
  and `--canonical` in either order;
* `gflags`: the gflags command line parsing of the C++ tools;
* `pystr`, `unicode`, `text`: Python strings (code points,
  `surrogateescape`, `repr`, `int()`), the Unicode tables they need, and
  text helpers;
* `terminal`: the terminal width rule;
* `tool` (with `tool::canonical`): the `fasm` tool's command line, the
  text of its lines and output, its `--canonical` order, and each step
  of the choice of the reported parse error (`report_step`,
  `error_after`: where parsing resumes after a value range error, and the
  positions in the file);
* `fasm2frames`, `uray_fasm2frames`, `xcfasm`: their command lines and
  messages;
* `xc7frames2bit`, `bitread`: their flags and what a run asks for, the
  format choice, `SOURCE_DATE_EPOCH`, the frame selection, and the texts
  of the frames, the `-p` image, the `--aux` file, frame addresses and a
  few messages;
* `db_cache`: the command line of `fasm-db-cache` and its `info` text.

`app/` runs the tools: process arguments and environment, files, the
terminal, and the FASM parser and Xilinx libraries that parse, assemble
and encode. The steps around those libraries are there too: the loop
that runs the parses the library's `report_step` asks for, the parse
error kinds that count as value range errors, and the reading and
checking sequence of `bitread` and `xc7frames2bit`, with its file and
bitstream error messages. `tests/` exercises the library.
