//! The state behind the interactive screens: menus, prompts and progress.
//! Drawing them and reading keys is left to the caller.
use vstd::prelude::*;
use crate::text::{lower_of, chars_of, lowercase};

verus! {

/// What the user allows to be saved automatically.
#[derive(Debug, Clone, Copy, PartialEq, Eq, Structural)]
pub enum AutoSaveChoice {
    LocalOnly,
    ShareToCommunity,
    Disabled,
}

/// The first-run consent prompt: its options and the highlighted one.
pub struct ConsentPrompt {
    pub selected: usize,
    pub options: Vec<(&'static str, AutoSaveChoice)>,
}

impl ConsentPrompt {
    /// The prompt with its three options, the first highlighted.
    pub fn new() -> (r: Self)
        ensures
            r.selected == 0,
            r.options@.len() == 3,
            r.options@[0].1 == AutoSaveChoice::LocalOnly,
            r.options@[1].1 == AutoSaveChoice::ShareToCommunity,
            r.options@[2].1 == AutoSaveChoice::Disabled,
    {
        ConsentPrompt {
            selected: 0,
            options: vec![
                ("Save locally only", AutoSaveChoice::LocalOnly),
                ("Save locally + share to community", AutoSaveChoice::ShareToCommunity),
                ("Don't save automatically", AutoSaveChoice::Disabled),
            ],
        }
    }
}

/// One entry of the command menu.
pub struct CommandOption {
    pub name: &'static str,
    pub description: &'static str,
    pub alias: Option<&'static str>,
    pub example: &'static str,
}

/// The command menu: its entries and the highlighted one.
pub struct CommandMenu {
    pub commands: Vec<CommandOption>,
    pub selected: usize,
}

/// The names of the command menu's entries, in order.
pub open spec fn menu_names() -> Seq<Seq<char>> {
    seq![
        "Recall"@, "Fix"@, "Predict"@, "Import"@, "Init"@, "Seed Moat"@, "Status"@,
        "Daemon Start"@, "Daemon Stop"@, "Help"@,
    ]
}

impl CommandMenu {
    /// The menu with its ten entries, the first highlighted.
    pub fn new() -> (r: Self)
        ensures
            r.selected == 0,
            r.commands@.len() == 10,
            forall|i: int| 0 <= i < 10 ==> #[trigger] r.commands@[i].name@ == menu_names()[i],
    {
        let commands = vec![
            CommandOption {
                name: "Recall",
                description: "Search your command history semantically",
                alias: Some("recall"),
                example: "aethr recall \"docker\"",
            },
            CommandOption {
                name: "Fix",
                description: "Get instant fixes for terminal errors",
                alias: Some("fix"),
                example: "aethr fix \"permission denied\"",
            },
            CommandOption {
                name: "Predict",
                description: "AI-powered command suggestions",
                alias: Some("predict"),
                example: "aethr predict \"deploy\"",
            },
            CommandOption {
                name: "Import",
                description: "Import your shell history into Aethr",
                alias: Some("import"),
                example: "aethr import",
            },
            CommandOption {
                name: "Init",
                description: "Initialize Aethr (create database)",
                alias: Some("init"),
                example: "aethr init",
            },
            CommandOption {
                name: "Seed Moat",
                description: "Load 54+ community fixes",
                alias: Some("seed-moat"),
                example: "aethr seed-moat",
            },
            CommandOption {
                name: "Status",
                description: "Check Aethr daemon status",
                alias: Some("status"),
                example: "aethr status",
            },
            CommandOption {
                name: "Daemon Start",
                description: "Start background sync daemon",
                alias: Some("daemon-start"),
                example: "aethr daemon-start",
            },
            CommandOption {
                name: "Daemon Stop",
                description: "Stop background sync daemon",
                alias: Some("daemon-stop"),
                example: "aethr daemon-stop",
            },
            CommandOption {
                name: "Help",
                description: "Show help information",
                alias: Some("--help"),
                example: "aethr --help",
            },
        ];
        let r = CommandMenu { commands, selected: 0 };
        assert forall|i: int| 0 <= i < 10 implies #[trigger] r.commands@[i].name@ == menu_names()[i] by {}
        r
    }
}

/// A slash command of the interactive prompt.
#[derive(Clone, Copy)]
pub struct SlashCommand {
    pub name: &'static str,
    pub description: &'static str,
}

/// The interactive prompt: the typed input, the cursor, its slash commands
/// and the menu state.
pub struct InteractivePrompt {
    pub input: String,
    pub cursor_pos: usize,
    pub commands: Vec<SlashCommand>,
    pub selected_idx: usize,
    pub show_menu: bool,
    pub start_row: u16,
}

/// The text after a leading `/` of the input; empty where there is none.
pub open spec fn slash_filter(input: Seq<char>) -> Seq<char> {
    if input.len() > 0 && input[0] == '/' { input.drop_first() } else { Seq::empty() }
}

/// A command shows under `filter`: the filter is empty, or the lower-cased
/// name starts with the lower-cased filter.
pub open spec fn shown(name: Seq<char>, filter: Seq<char>) -> bool {
    filter.len() == 0 || ({
        let n = lower_of(name);
        let f = lower_of(filter);
        f.len() <= n.len() && n.subrange(0, f.len() as int) == f
    })
}

/// The commands among the first `k` that show under `filter`, in order.
pub open spec fn shown_commands(cmds: Seq<SlashCommand>, filter: Seq<char>, k: nat) -> Seq<SlashCommand>
    decreases k,
{
    if k == 0 || k > cmds.len() {
        Seq::empty()
    } else if shown(cmds[k - 1].name@, filter) {
        shown_commands(cmds, filter, (k - 1) as nat).push(cmds[k - 1])
    } else {
        shown_commands(cmds, filter, (k - 1) as nat)
    }
}

fn starts_with(n: &Vec<char>, f: &Vec<char>) -> (r: bool)
    ensures
        r == (f@.len() <= n@.len() && n@.subrange(0, f@.len() as int) == f@),
{
    if f.len() > n.len() {
        return false;
    }
    let mut i: usize = 0;
    while i < f.len()
        invariant
            f@.len() <= n@.len(),
            i <= f@.len(),
            forall|j: int| 0 <= j < i ==> n@[j] == f@[j],
        decreases f@.len() - i,
    {
        if n[i] != f[i] {
            assert(n@.subrange(0, f@.len() as int)[i as int] != f@[i as int]);
            return false;
        }
        i += 1;
    }
    assert(n@.subrange(0, f@.len() as int) =~= f@);
    true
}

impl InteractivePrompt {
    /// The prompt with empty input and its eight slash commands.
    pub fn new() -> (r: Self)
        ensures
            r.input@.len() == 0,
            r.cursor_pos == 0,
            r.commands@.len() == 8,
            r.selected_idx == 0,
            !r.show_menu,
    {
        InteractivePrompt {
            input: String::new(),
            cursor_pos: 0,
            commands: vec![
                SlashCommand { name: "recall", description: "Search command history" },
                SlashCommand { name: "fix", description: "Fix a terminal error" },
                SlashCommand { name: "import", description: "Import shell history" },
                SlashCommand { name: "init", description: "Initialize Aethr" },
                SlashCommand { name: "status", description: "Check Aethr status" },
                SlashCommand { name: "clear", description: "Clear the screen" },
                SlashCommand { name: "help", description: "Show help for commands" },
                SlashCommand { name: "exit", description: "Exit Aethr" },
            ],
            selected_idx: 0,
            show_menu: false,
            start_row: 0,
        }
    }

    /// The slash commands that match what follows `/` in the input, in order.
    pub fn filtered_commands(&self) -> (r: Vec<SlashCommand>)
        ensures
            r@ == shown_commands(self.commands@, slash_filter(self.input@), self.commands@.len() as nat),
    {
        let input = chars_of(self.input.as_str());
        let mut filter: Vec<char> = Vec::new();
        if input.len() > 0 && input[0] == '/' {
            let mut i: usize = 1;
            while i < input.len()
                invariant
                    1 <= i <= input@.len(),
                    filter@ == input@.subrange(1, i as int),
                decreases input@.len() - i,
            {
                filter.push(input[i]);
                i += 1;
                assert(filter@ =~= input@.subrange(1, i as int));
            }
            assert(filter@ =~= input@.drop_first());
        } else {
            assert(filter@ =~= Seq::<char>::empty());
        }
        let lf_text = lowercase(crate::text::string_of(&filter).as_str());
        let lf = chars_of(lf_text.as_str());
        let mut out: Vec<SlashCommand> = Vec::new();
        let mut k: usize = 0;
        while k < self.commands.len()
            invariant
                k <= self.commands@.len(),
                filter@ == slash_filter(self.input@),
                lf@ == lower_of(filter@),
                out@ == shown_commands(self.commands@, filter@, k as nat),
            decreases self.commands@.len() - k,
        {
            let c = self.commands[k];
            let keep = if filter.len() == 0 {
                true
            } else {
                let ln = lowercase(c.name);
                let n = chars_of(ln.as_str());
                starts_with(&n, &lf)
            };
            if keep {
                out.push(c);
            }
            k += 1;
        }
        out
    }
}

/// One-line status messages; printing them is left to the caller.
pub struct Status;

/// A progress count towards a total, with a message.
pub struct Progress {
    pub total: usize,
    pub current: usize,
    pub message: String,
}

impl Progress {
    /// No progress yet towards `total`.
    pub fn new(total: usize, message: String) -> (r: Self)
        ensures
            r.total == total,
            r.current == 0,
            r.message == message,
    {
        Progress { total, current: 0, message }
    }

    /// One more step done.
    pub fn increment(&mut self)
        requires
            old(self).current < usize::MAX,
        ensures
            final(self).current == old(self).current + 1,
            final(self).total == old(self).total,
            final(self).message == old(self).message,
    {
        self.current = self.current + 1;
    }

    /// Sets the steps done, at most the total.
    pub fn set(&mut self, current: usize)
        ensures
            final(self).current == if current < old(self).total { current } else { old(self).total },
            final(self).total == old(self).total,
            final(self).message == old(self).message,
    {
        self.current = if current < self.total { current } else { self.total };
    }

    /// The share done, in whole percent; all of it for an empty total.
    pub fn percent(&self) -> (r: usize)
        ensures
            self.total == 0 ==> r == 100,
            self.total > 0 && self.current <= self.total ==> r as int == (self.current as int) * 100 / (self.total as int),
    {
        if self.total == 0 {
            return 100;
        }
        let c: u128 = self.current as u128;
        let t: u128 = self.total as u128;
        let p: u128 = c * 100 / t;
        if c <= t {
            assert((c as int) * 100 / (t as int) <= 100) by (nonlinear_arith)
                requires c <= t, t > 0;
        }
        if p > 100 {
            100
        } else {
            p as usize
        }
    }
}

} // verus!
