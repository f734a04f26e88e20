# termtosvg

Record terminal sessions and render them as SVG animations, with the
rendering pipeline verified in Verus.

- `src/` is the verified library:
  - `asciicast`: recordings (header, theme, events; times in microseconds);
  - `term`: grouping of output into frames and replay of the frames;
  - `emulator`, `attributes`, `grid`: the terminal screen, its cursor and
    graphic rendition;
  - `anim`: drawing lines and frames as SVG, with one definition per
    distinct line of text;
  - `template`, `render`: fitting a template to the screen, its style sheet,
    and whole documents;
  - `svg`, `tree`, `xml`: the document model, positions in it, and its XML
    text;
  - `recorder`: the decisions of the recording loop;
  - `cli`, `config`: option values;
  - `text`, `assoc`, `listing`, `order`: shared building blocks.
- `app/` is the program: command line, files, the terminal and the
  pseudo-terminal of the recorded program, JSON, and the floating-point
  percentages of the style sheet.
- `tests/` runs the library on concrete inputs.
