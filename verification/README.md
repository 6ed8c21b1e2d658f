# inline_preview

Previews of the formulas in a text. Formulas are rendered to SVG files by LaTeX or Typst, and
the pictures are shown in an editor in place of the formulas, or in a popover.

`src/` is the library. It is verified with Verus: what each function returns stands in its
contract, and what holds of several functions together stands in the public proof functions
whose names begin with `law_`.

- `text`, `hash`, `paths`, `keyed`: strings, digests, paths of files, and a list with keys.
- `backend`, `config`, `command`, `cache`, `context`, `job`: rendering one formula. A renderer
  remembers what it has rendered; a `RenderJob` says step by step what is to be done, and is
  told what came of it.
- `svg`: the size of a picture.
- `delimiters`, `ranges`, `layout`: where a formula stands in the text and in the display.
- `settings`, `request`, `batch`, `entry`: all formulas of a text in one pass.
- `previews`, `registry`: what an editor shows, and which renderer serves which buffer.

Paths are those of Unix, with `/` between their components.

The library does no input or output. `app/` does: it writes the files, runs the programs, and
puts the pictures into an editor. It also holds what is counted in floating point.

The one assumption about code outside the library is that of `regex_first_group` in `svg`: the
patterns for the attributes of an SVG tag compile, and what they find depends on the pattern
and the tag alone.
