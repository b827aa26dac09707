# touchhle

Parts of a high-level emulator for iPhone OS apps, verified with Verus: the guest's
memory, its console, `errno`, the `printf` and `scanf` families, the tables of the
Objective-C runtime, touches, audio players and the state of OpenGL ES.

- `src/` is the library. Each function states what it does over models of the
  environment: sequences, maps and the view of each type. Modules called `laws`, and
  functions called `law_...`, state what holds of several functions together.
  `environment::layout` states where in guest memory the environment keeps what it
  hands out, and that it stays there from one call to the next.
- What only the host can do (sending messages to guest objects, drawing, playing,
  computing with floating-point numbers) is asked for. A function returns an action,
  and goes on with the reply in `resume`. Floating-point numbers are bit patterns in
  the library.
- `tests/` runs the library on concrete values.
- `app/` is the host's side: it performs the actions and reads the settings.

One function is trusted: `guest_console::from_utf8_lossy`, which calls
`String::from_utf8_lossy`.
