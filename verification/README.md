# mmux

A lightweight terminal multiplexer. Its panes show the output of programs that run in
pseudo-terminals; a binary tree of splits divides the screen among them.

`src/` is the verified library. Every change of state has an exact contract against a
mathematical model, and the properties of the whole are proved from that model.

| module | what it holds |
| --- | --- |
| `ratio` | split ratios: exact double-precision arithmetic on integers |
| `geometry`, `layout` | rectangles, directions and the layout tree |
| `vt` | virtual screens, rendered by vt100 |
| `pane` | a pane: its place, its terminal's output and its screen |
| `focus` | which pane lies next to another |
| `keys` | the bytes that programs receive for keys |
| `text`, `paint` | the commands that draw panes, titles and the footer |
| `action`, `event` | what the library asks for and what it is told |
| `model`, `state` | the state of the multiplexer, as a value and as a program |
| `turn` | the main loop as a state machine |
| `*_laws`, `model_lemmas` | what holds whatever is done |

`app/` is the program around it: the command line, the pseudo-terminals and the outer terminal.

## Keys

- `Ctrl+V` splits the active pane into left and right, `Ctrl+H` into upper and lower
- `Ctrl+Space` zooms the active pane and back
- `Ctrl+B` sends input to all panes, or to the active one again
- `Ctrl+Arrow` moves the focus
- `Ctrl+Shift+Arrow` moves a boundary of the active pane
- `Alt+Shift+Arrow` exchanges terminals with the neighbouring pane

## Options

- `-s`, `--shell <SHELL>`: the program of new panes, by default `$SHELL` or `/bin/bash`
- `-n`, `--no-instructions`: no footer
- `-d`, `--debug`: show the last key in the footer
- `--min-width <N>`, `--min-height <N>`: the least size of a pane, by default 19 and 10
- `-V`, `--version`: show the version
