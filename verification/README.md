# webgen-menu

A start menu for the WebGen Linux desktop. `src/` is a library, verified with Verus, that holds
what the menu decides: which desktop files it shows, in what order and under which category, what
an entry starts, which flyouts are open, when the menu and the confirmation dialog close, and
whether an action runs. `app/` is the program around it: the widgets, the desktop files on disk,
the icon theme, the clock and the processes that it starts.

| Module     | What it is about                                              |
|------------|---------------------------------------------------------------|
| `text`     | characters, words, the order of strings                       |
| `category` | the categories and the rules that pick one                    |
| `desktop`  | desktop files and the list of applications                    |
| `listing`  | sorting and the removal of repeats                            |
| `sequence` | lists in another order, and what a rule keeps of a list      |
| `launch`   | command lines                                                 |
| `menu`     | the rows of the menu, its flyouts and its window              |
| `confirm`  | the dialog with its countdown                                 |
| `toggle`   | the arguments of the program and what a call does to the menu |

Each module states what its functions do over mathematical models, in their contracts, and what
holds of them together in public proof functions whose names begin with `law_`.
