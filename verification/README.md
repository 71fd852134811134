# beeswarmer

Turns survey answers into a beeswarm plot of how much each answer
contributes to an outcome, using a gradient-boosted model and its Shapley
contributions.

- `src/` is the verified library: the CSV reader (`table`), the table checks
  (`checks`), the settings and project files (`config`, `savefile`, with the
  writes they ask for in `storage`), the configuration step (`configuration`,
  `sorting`), the model inputs (`ml`) and the feature labels (`labels`).
- `app/` reads and writes files, asks for files in dialogs, trains the model
  and draws the plot; it holds the serialisable copies of the file types.
- `tests/` exercises the library on concrete values.
