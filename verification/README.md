# forgotten_walls

The verified core of a first-person labyrinth horror game in three acts.

`src/` is the library, checked by Verus:

- `grid` – the model of a maze (rows of wall flags), walks and
  reachability, and the lemmas on carving a wall.
- `maze` – the labyrinth generator (recursive backtracker over the odd
  cells, then braiding of dead ends). Every maze it returns has a walled
  border, open rooms, and every floor cell reachable from the spawn room.
- `level` – the layout of an act's level: floor cells, batteries, lever,
  keepsakes, echo fragments, tapes, the stalker's start and the lift.
- `lamps` – the ceiling lights: fixtures, dark zones and the reactor act's
  beacons.
- `game` – game states, run progress, endings, menu settings.
- `monster` – the stalker's decision of each frame.
- `player` – stamina, the forced run and the madness rules.
- `save` – the act number stored in a save and how a loaded save is laid
  over a fresh level.
- `story` – tape subtitles, act intros, screamer files, ambient tracks.
- `rng` – the calls into `rand` that the generators make.

`app/` is the game around the library (rendering, audio, input, the save
file), built on Bevy; `tests/` runs the library on concrete values.
