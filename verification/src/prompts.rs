//! Quick prompts: pre-defined messages sent to an agent with one keystroke.

use vstd::prelude::*;

verus! {

/// A quick prompt: its key, a short label, and the full prompt text.
#[derive(Clone, Copy)]
pub struct QuickPrompt {
    pub key: char,
    pub label: &'static str,
    pub prompt: &'static str,
}

/// The label of the quick prompt at a place in the palette.
pub open spec fn quick_prompt_label(i: int) -> Seq<char> {
    if i == 0 {
        "Review"@
    } else if i == 1 {
        "Commit, push & PR"@
    } else if i == 2 {
        "Run tests"@
    } else if i == 3 {
        "Lint & format"@
    } else if i == 4 {
        "Explain changes"@
    } else if i == 5 {
        "Continue"@
    } else if i == 6 {
        "Commit only"@
    } else {
        "Undo last change"@
    }
}

/// The text of the quick prompt at a place in the palette.
pub open spec fn quick_prompt_text(i: int) -> Seq<char> {
    if i == 0 {
        "Review all the changes you made. If there is a REVIEW or REVIEW.md \
                     file in the project root, follow its checklist and criteria. Otherwise \
                     check for bugs, missing edge cases, security issues, and style \
                     inconsistencies. Summarize what you found and fix any issues."@
    } else if i == 1 {
        "Commit all your changes with a clear, conventional commit message. \
                     Choose a descriptive branch name matching the work done if not already \
                     on one. Push the branch and create a pull request (or update it if one \
                     already exists). Write a PR description summarizing the changes, \
                     motivation, and what was tested."@
    } else if i == 2 {
        "Run the project's test suite and fix any failures. If there are no \
                     tests for the code you changed, write appropriate tests first, then \
                     run them."@
    } else if i == 3 {
        "Run the project's linter and formatter. Fix all warnings and errors. \
                     If no linter is configured, use the language's standard tools."@
    } else if i == 4 {
        "Give me a concise summary of every change you made: which files, what \
                     was changed, and why. List any decisions you made and their trade-offs."@
    } else if i == 5 {
        "Continue working on the task. Pick up where you left off."@
    } else if i == 6 {
        "Stage and commit all changes with a clear, conventional commit message. \
                     Do not push or create a PR yet."@
    } else {
        "Undo the last change you made. Use git to revert the last commit if \
                     committed, or restore the files if uncommitted. Explain what was undone."@
    }
}

/// The palette in key order.
pub fn quick_prompts() -> (r: [QuickPrompt; 8])
    ensures
        forall|i: int| 0 <= i < 8 ==> (#[trigger] r@[i]).key == ((49 + i) as u8) as char,
        forall|i: int|
            0 <= i < 8 ==> (#[trigger] r@[i]).label@ == quick_prompt_label(i) && r@[i].prompt@
                == quick_prompt_text(i),
{
    [
        QuickPrompt {
            key: '1',
            label: "Review",
            prompt: "Review all the changes you made. If there is a REVIEW or REVIEW.md \
                     file in the project root, follow its checklist and criteria. Otherwise \
                     check for bugs, missing edge cases, security issues, and style \
                     inconsistencies. Summarize what you found and fix any issues.",
        },
        QuickPrompt {
            key: '2',
            label: "Commit, push & PR",
            prompt: "Commit all your changes with a clear, conventional commit message. \
                     Choose a descriptive branch name matching the work done if not already \
                     on one. Push the branch and create a pull request (or update it if one \
                     already exists). Write a PR description summarizing the changes, \
                     motivation, and what was tested.",
        },
        QuickPrompt {
            key: '3',
            label: "Run tests",
            prompt: "Run the project's test suite and fix any failures. If there are no \
                     tests for the code you changed, write appropriate tests first, then \
                     run them.",
        },
        QuickPrompt {
            key: '4',
            label: "Lint & format",
            prompt: "Run the project's linter and formatter. Fix all warnings and errors. \
                     If no linter is configured, use the language's standard tools.",
        },
        QuickPrompt {
            key: '5',
            label: "Explain changes",
            prompt: "Give me a concise summary of every change you made: which files, what \
                     was changed, and why. List any decisions you made and their trade-offs.",
        },
        QuickPrompt {
            key: '6',
            label: "Continue",
            prompt: "Continue working on the task. Pick up where you left off.",
        },
        QuickPrompt {
            key: '7',
            label: "Commit only",
            prompt: "Stage and commit all changes with a clear, conventional commit message. \
                     Do not push or create a PR yet.",
        },
        QuickPrompt {
            key: '8',
            label: "Undo last change",
            prompt: "Undo the last change you made. Use git to revert the last commit if \
                     committed, or restore the files if uncommitted. Explain what was undone.",
        },
    ]
}

/// The quick prompt bound to a key, if any: keys `1` to `8`.
pub fn find_quick_prompt(key: char) -> (r: Option<QuickPrompt>)
    ensures
        r is Some <==> ('1' <= key && key <= '8'),
        r matches Some(p) ==> p.key == key && p.label@ == quick_prompt_label(key as u32 - 49)
            && p.prompt@ == quick_prompt_text(key as u32 - 49),
{
    let all = quick_prompts();
    let mut i: usize = 0;
    while i < 8
        invariant
            i <= 8,
            forall|j: int| 0 <= j < 8 ==> (#[trigger] all@[j]).key == ((49 + j) as u8) as char,
            forall|j: int|
                0 <= j < 8 ==> (#[trigger] all@[j]).label@ == quick_prompt_label(j) && all@[j].prompt@
                    == quick_prompt_text(j),
            forall|j: int| 0 <= j < i ==> (#[trigger] all@[j]).key != key,
        decreases 8 - i,
    {
        if all[i].key == key {
            proof {
                assert(key as u32 - 49 == i);
            }
            return Some(all[i]);
        }
        i = i + 1;
    }
    proof {
        if '1' <= key && key <= '8' {
            let j = (key as u32 - 49) as int;
            assert(all@[j].key == key);
        }
    }
    None
}

} // verus!
