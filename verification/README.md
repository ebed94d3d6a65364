# rps_sim

A rock-paper-scissors swarm simulation. Players of several types bounce
around an arena; when two players of neighbouring types touch, the loser
joins the winner's type.

- `src/` is the verified library (Verus): collision layers (`layers`), the
  rule of who beats whom (`rules`), the decisions of a physics frame
  (`collision`), the ranking of types by population (`rank`), the roster of
  types the user edits (`roster`), reading a typed player count
  (`count_text`), the credits screen's text (`credits`) and the screens and
  moves between them (`state`).
- `tests/` exercises the library.
- `app/` is the bevy program around it: windows, drawing, physics, input,
  file dialogs and links.
