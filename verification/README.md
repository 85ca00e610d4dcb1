# oneplayer

A player for digital signs. It fetches the schedule of a day, downloads what the schedule shows,
and puts each scene on screen at its time, by a clock that is set over the network.

`src/` is the library: everything that decides, with its behaviour stated in contracts and proved
by Verus.

| module | what it holds |
| --- | --- |
| `settings`, `panel`, `startup` | the settings, the panel that changes them, the command line |
| `clock` | the clock and how it is set |
| `cms` | the schedule as it comes, and the requests for it |
| `timeline` | from a schedule to its timeline, and what is on when |
| `cache` | which files are there, downloading and cleaning up |
| `engine` | syncing, the playback loop, logs, what follows from a switch |
| `tracking` | reports of what was seen of advertisements |
| `render` | preparing scenes, decoders, decoding images and keeping them, switching |
| `timing_log`, `sample` | the log of switches, the demonstration |
| `text`, `sort`, `digest`, `config` | what the others share |

What every state or any two calls keep stands as public proof functions beside the functions that
they are about; `timeline/laws.rs` holds those of whole timelines.

`app/` is the program around the library: files, network, processes, the graphics device and the
window. It runs the machines of the library and hands back what came of their actions.

`tests/` runs the library on concrete values.
