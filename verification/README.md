# boardgames

An engine for board games whose pieces are described by rules: each kind of piece lists its
moves as conditions in a small rule language, and rules that fire when a piece moves, kills,
dies or is revived. A game is set up, played and ended through text commands, one stage after
another.

The library in `src/` is verified with Verus:

- `rule`, `eval`: the rule language and its evaluator; every rule is specified by a step
  relation (`evaluated`) in which each call of the board is a step, and rules that do not call
  the board also by a pure evaluation function.
- `calls`, `api`, `places`, `catalog`: the calls a rule can make on the board, each with its
  answer and its effect on the board and on the rule's variables.
- `board`, `ids`, `layout`, `json`, `rules`, `play`: the board, how a board file lays it out
  (read with serde_json), move generation, attacks, moves, revivals, the end of the game and
  the search for a mate; move generation, attacks, moves, revivals and the end of the game are
  also stated as the evaluations they go through, for rules that call the board too, and the
  answer of the search for a mate is stated exactly for boards whose rules call the board
  nowhere (`mate_found`).
- `game`, `creator`, `ruletree`, `show`: the stages of a session and the dialogs that create
  boards, pieces and rules, with each answer a dialog reads mapped by a verified step to what
  it builds.
- `text`, `dict`, `channel`: text helpers, an insertion-ordered map, and the channels to the
  player.

`app/` is the program around it: the terminal client, the session thread that reads board and
piece files and writes the JSON exchange format, and a Node.js binding.
