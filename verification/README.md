# music_player

A music player for the terminal: it lists the audio files of a directory, finds them by
fuzzy search, plays them in order or shuffled, and shows a spectrum meter while they play.

The library under `src/` decides; it is verified with Verus. The program under `app/`
reads the directory and the keys, decodes and plays the sound, and writes to the terminal.

## The library

| module     | what it holds                                                            |
|------------|--------------------------------------------------------------------------|
| `session`  | what is selected and what plays, and what keys and events do to it       |
| `playlist` | moving the selection, and which track follows                            |
| `shuffle`  | the shuffle queue                                                        |
| `search`   | fuzzy search: scores, and the order of what is found                     |
| `track`    | files, their names and formats, and what is known of a track             |
| `time`     | positions, seeking, and how they are written                             |
| `mode`     | repeat modes and themes                                                  |
| `spectrum` | how samples are gathered, shared out among workers and reported          |
| `meter`    | levels, colours and bars of the meter                                    |
| `text`     | characters, widths, truncation, numbers, order                           |
| `style`    | frames of coloured text, and their escape sequences                      |
| `panels`   | header and panels                                                        |
| `layout`   | how high and how wide header and panels are                              |
| `screen`   | the whole screen                                                         |

Contracts speak of sequences of characters and numbers. Public proof functions state what
holds across functions: that shuffling rearranges, that a search has one result, that the
selected track is shown, that the shuffle queue never holds the track that plays.

What rests on floating-point numbers is in `app/`: the transform behind the spectra, the
frame for a position, the easing of the bars, the interpolation of colours, the volume and
the progress bar.

## Keys

| key                  | what it does                                   |
|----------------------|------------------------------------------------|
| Up, Down             | move the selection                             |
| Enter                | play the selected track                        |
| Space                | play, pause or resume                          |
| Left, Right          | seek by five seconds                           |
| `+`, `-`             | change the volume                              |
| `/`                  | search; Enter keeps it, Esc clears it          |
| `r` or `a`           | switch the repeat mode                         |
| `s`                  | switch shuffled play                           |
| `t`                  | switch the theme of the meter                  |
| `q`, Esc             | leave                                          |
