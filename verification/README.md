# win32_input

Synthetic pointer and keyboard input for Windows, with its decisions verified in
Verus.

Input reaches its target in one of three ways:

- **global**: through the user's own pointer and keyboard,
- **background**: as messages posted to the target window, which never take the
  user's focus,
- **foreground**: injected into the system input queue while the target is the
  foreground window, which is then handed back.

## Layout

`src/` is the verified library. It makes no platform call. A procedure runs over
a *tape* of answers that the platform has given so far; where an answer is
missing it stops and names the call it waits for. A host makes the call, appends
the answer and runs the procedure again.

| Module | What it decides |
| --- | --- |
| `tape` | calls, answers, and the trail that contracts speak of |
| `error`, `request`, `keys`, `win32` | errors, requests, keys and Win32 numbers |
| `text`, `message` | decimal and UTF-16 text, message parameters, injected events |
| `window` | facts about window handles: classes, children, focus, integrity |
| `activation` | taking the foreground, and keeping a window from taking it |
| `delivery` | whether a window can and will receive input |
| `emitter` | key messages posted to one window |
| `global`, `background`, `foreground` | the three ways of input |
| `input` | the entry points |
| `effects` | which calls each procedure can make at all |
| `replay` | that a run on more answers repeats the run before |

`app/` is the host: it makes the calls through `windows-sys` and `enigo`. What
depends on floating-point numbers (wheel notches, rounding) happens there.

`tests/` runs the procedures against a pretend desktop and holds the Win32
numbers against the headers.

## What is trusted

Three items of the standard library: `String::push`, `char::from_u32` and
`Debug` for `char`, all in `text`.
