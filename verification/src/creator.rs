//! The rule creator: a dialog in which the player builds a rule part by part.
use vstd::prelude::*;
use crate::catalog::{ANY_ARGS, SQUARE_ARGS, calls_table, default_calls};
use crate::game::{Game, MAX_WAIT, RULE_NESTING, write_list};
use crate::rule::{RuleExpression, RuleValue};
use crate::ruletree::{RuleState, RuleTree, add_node, pop_node, print_state, swap_node, tree_add};
use crate::text::{cat, cat3, parse_i32, spec_parse_i32, starts_with, str_eq, text, trim_start_matches, trim_text, words};
use crate::board::Board;
use crate::piece::{Piece, PieceView};
use crate::pmove::PMove;
use crate::api::count_text;

verus! {

/// Whether a call that takes `n` arguments (see `calls_table`) may be given `k`.
pub open spec fn arity_fits(n: u32, k: nat) -> bool {
    n == ANY_ARGS || (n == SQUARE_ARGS && (k == 2 || k == 3)) || (n != SQUARE_ARGS && k == n)
}

/// Whether a rule is a call that the catalogue knows, with a number of arguments it accepts.
pub open spec fn known_call(e: RuleValue) -> bool {
    e matches RuleValue::ApiCall(name, args) && calls_table().contains_key(name) && arity_fits(calls_table()[name].0, args.len())
}

/// The name of a two-part rule: `Pair`, `Equals`, `Diff` or `Sum`.
pub open spec fn pair_name(typ: i32) -> Seq<char> {
    if typ == 0 { "Pair"@ } else if typ == 1 { "Equals"@ } else if typ == 2 { "Diff"@ } else { "Sum"@ }
}

/// Whether a rule is the two-part rule `typ` names.
pub open spec fn is_pair_kind(e: RuleValue, typ: i32) -> bool {
    if typ == 0 {
        e is Pair
    } else if typ == 1 {
        e is Equals
    } else if typ == 2 {
        e is Diff
    } else {
        e is Sum
    }
}

/// Whether a rule is the one-part rule `typ` names: `First`, `Second` or `Not`.
pub open spec fn is_single_kind(e: RuleValue, typ: i32) -> bool {
    if typ == 0 { e is First } else if typ == 1 { e is Second } else { e is Not }
}

/// What an answer to the question for a Boolean builds: `true` or `false`; nothing for any other
/// text.
pub open spec fn spec_boolean_reply(msg: Seq<char>) -> Option<bool> {
    if msg == "true"@ {
        Some(true)
    } else if msg == "false"@ {
        Some(false)
    } else {
        None
    }
}

/// Reads an answer to the question for a Boolean (see `spec_boolean_reply`).
pub fn boolean_reply(msg: &str) -> (r: Option<bool>)
    ensures
        r == spec_boolean_reply(msg@),
{
    if str_eq(msg, "true") {
        Some(true)
    } else if str_eq(msg, "false") {
        Some(false)
    } else {
        None
    }
}

/// Whether a text is one of the words the steps of the rule creator answer themselves:
/// `getstatus`, `cancel`, `help`, `status`.
pub open spec fn dialog_word(msg: Seq<char>) -> bool {
    msg == "getstatus"@ || msg == "cancel"@ || msg == "help"@ || msg == "status"@
}

fn is_dialog_word(msg: &str) -> (r: bool)
    ensures
        r == dialog_word(msg@),
{
    str_eq(msg, "getstatus") || str_eq(msg, "cancel") || str_eq(msg, "help") || str_eq(msg, "status")
}

/// What an answer to the question for an integer builds: the integer the text writes, unless
/// the text is one of the dialog's own words.
pub open spec fn spec_integer_reply(msg: Seq<char>) -> Option<i32> {
    if dialog_word(msg) { None } else { spec_parse_i32(msg) }
}

/// Reads an answer to the question for an integer (see `spec_integer_reply`).
pub fn integer_reply(msg: &str) -> (r: Option<i32>)
    ensures
        r == spec_integer_reply(msg@),
{
    if is_dialog_word(msg) { None } else { parse_i32(msg) }
}

/// What an answer to the question for a variable builds: a variable of that name, unless the
/// text is one of the dialog's own words.
pub open spec fn spec_variable_reply(msg: Seq<char>) -> Option<Seq<char>> {
    if dialog_word(msg) { None } else { Some(msg) }
}

/// Reads an answer to the question for a variable (see `spec_variable_reply`).
pub fn variable_reply(msg: &str) -> (r: Option<String>)
    ensures
        r matches Some(v) ==> spec_variable_reply(msg@) == Some(v@),
        r is None ==> spec_variable_reply(msg@) is None,
{
    if is_dialog_word(msg) { None } else { Some(text(msg)) }
}

/// What an answer to the question for a call builds: its words (after trimming) are the call's
/// name and its arguments; the name must be in the catalogue (else `No such call`) and the
/// number of arguments one it accepts (else, as for an empty answer, `Wrong number of
/// arguments`).
pub open spec fn spec_call_reply(msg: Seq<char>) -> Result<RuleValue, Seq<char>> {
    let ws = crate::text::spec_words(crate::text::spec_trim(msg));
    if ws.len() < 1 {
        Err("Wrong number of arguments"@)
    } else if !calls_table().contains_key(ws[0]) {
        Err("No such call"@)
    } else if !arity_fits(calls_table()[ws[0]].0, (ws.len() - 1) as nat) {
        Err("Wrong number of arguments"@)
    } else {
        Ok(RuleValue::ApiCall(ws[0], ws.drop_first()))
    }
}

/// Reads an answer to the question for a call against the catalogue `calls` (see
/// `spec_call_reply`).
pub fn call_reply(msg: &str, calls: &crate::dict::Dict<(u32, String)>) -> (r: Result<RuleExpression, String>)
    requires
        calls@ == calls_table(),
    ensures
        match r {
            Ok(e) => spec_call_reply(msg@) == Ok::<RuleValue, Seq<char>>(e@),
            Err(t) => spec_call_reply(msg@) == Err::<RuleValue, Seq<char>>(t@),
        },
{
    let command = trim_text(msg);
    let args = words(command);
    let ghost ws = crate::text::spec_words(crate::text::spec_trim(msg@));
    proof {
        assert(args@.len() == ws.len());
    }
    if args.len() < 1 {
        return Err(text("Wrong number of arguments"));
    }
    let call = args[0];
    proof {
        assert(call@ == ws[0]);
    }
    match calls.get(call) {
        Some(entry) => {
            let n = entry.0;
            let k = args.len() - 1;
            let fits = n == ANY_ARGS || (n == SQUARE_ARGS && (k == 2 || k == 3)) || (n != SQUARE_ARGS && k == n as usize);
            if !fits {
                return Err(text("Wrong number of arguments"));
            }
            let mut rest: Vec<String> = Vec::new();
            let mut j: usize = 1;
            while j < args.len()
                invariant
                    1 <= j <= args@.len(),
                    rest@.len() == j - 1,
                    args@.len() == ws.len(),
                    forall|i: int| 0 <= i < j - 1 ==> (#[trigger] rest@[i])@ == ws[i + 1],
                    forall|i: int| 0 <= i < args@.len() ==> (#[trigger] args@[i])@ == ws[i],
                decreases args.len() - j,
            {
                rest.push(text(args[j]));
                j += 1;
            }
            let e = RuleExpression::ApiCall(text(call), rest);
            proof {
                assert(crate::rule::view_texts(rest@) =~= ws.drop_first());
            }
            Ok(e)
        },
        None => Err(text("No such call")),
    }
}

/// The kind of rule a choice of the menu of the rule creator names: `1` to `15`, in the
/// menu's order (`15` being a sum); nothing for any other text.
pub open spec fn spec_menu_choice(msg: Seq<char>) -> Option<u32> {
    if msg == "1"@ { Some(1u32) }
    else if msg == "2"@ { Some(2u32) }
    else if msg == "3"@ { Some(3u32) }
    else if msg == "4"@ { Some(4u32) }
    else if msg == "5"@ { Some(5u32) }
    else if msg == "6"@ { Some(6u32) }
    else if msg == "7"@ { Some(7u32) }
    else if msg == "8"@ { Some(8u32) }
    else if msg == "9"@ { Some(9u32) }
    else if msg == "10"@ { Some(10u32) }
    else if msg == "11"@ { Some(11u32) }
    else if msg == "12"@ { Some(12u32) }
    else if msg == "13"@ { Some(13u32) }
    else if msg == "14"@ { Some(14u32) }
    else if msg == "15"@ { Some(15u32) }
    else { None }
}

/// Reads a choice of the menu of the rule creator (see `spec_menu_choice`).
pub fn menu_choice(msg: &str) -> (r: Option<u32>)
    ensures
        r == spec_menu_choice(msg@),
{
    if str_eq(msg, "1") { Some(1) }
    else if str_eq(msg, "2") { Some(2) }
    else if str_eq(msg, "3") { Some(3) }
    else if str_eq(msg, "4") { Some(4) }
    else if str_eq(msg, "5") { Some(5) }
    else if str_eq(msg, "6") { Some(6) }
    else if str_eq(msg, "7") { Some(7) }
    else if str_eq(msg, "8") { Some(8) }
    else if str_eq(msg, "9") { Some(9) }
    else if str_eq(msg, "10") { Some(10) }
    else if str_eq(msg, "11") { Some(11) }
    else if str_eq(msg, "12") { Some(12) }
    else if str_eq(msg, "13") { Some(13) }
    else if str_eq(msg, "14") { Some(14) }
    else if str_eq(msg, "15") { Some(15) }
    else { None }
}

/// The menu number of the kind of a rule (see `spec_menu_choice`).
pub open spec fn menu_kind(e: RuleValue) -> u32 {
    match e {
        RuleValue::Void => 1,
        RuleValue::Boolean(_) => 2,
        RuleValue::Integer(_) => 3,
        RuleValue::Variable(_) => 4,
        RuleValue::ApiCall(_, _) => 5,
        RuleValue::Pair(_, _) => 6,
        RuleValue::First(_) => 7,
        RuleValue::Second(_) => 8,
        RuleValue::Diff(_, _) => 9,
        RuleValue::And(_) => 10,
        RuleValue::Or(_) => 11,
        RuleValue::Not(_) => 12,
        RuleValue::If(_, _, _) => 13,
        RuleValue::Equals(_, _) => 14,
        RuleValue::Sum(_, _) => 15,
        _ => 0,
    }
}

fn pair_name_of(typ: i32) -> (r: &'static str)
    ensures
        r@ == pair_name(typ),
{
    if typ == 0 { "Pair" } else if typ == 1 { "Equals" } else if typ == 2 { "Diff" } else { "Sum" }
}

impl Game {
    /// Asks for `true` or `false` and puts the answer at `path` in `root`; also gives the
    /// answer the rule was built from.
    fn create_boolean(&self, root: &mut RuleState, path: Vec<usize>) -> (r: (Option<RuleExpression>, Ghost<Seq<char>>))
        ensures
            r.0 matches Some(e) ==> spec_boolean_reply(r.1@) matches Some(b) && e@ == RuleValue::Boolean(b)
                && final(root)@ == tree_add(old(root)@, path@, 0, RuleTree::Closed(e@)),
            r.0 is None ==> *final(root) == *old(root),
    {
        self.say(vec![text("Enter true or false"), text("Enter 'status' to see rule preview"), text("Enter 'cancel' to go back")]);
        let mut waited: u64 = 0;
        while waited < MAX_WAIT
            invariant
                *root == *old(root),
            decreases MAX_WAIT - waited,
        {
            waited += 1;
            let msg = match self.next_message() {
                Some(m) => m,
                None => { return (None, Ghost(Seq::empty())); },
            };
            let m = msg.as_str();
            if str_eq(m, "getstatus") {
                self.status("rulecreator-bool");
            } else if let Some(b) = boolean_reply(m) {
                add_node(root, path, 0, RuleState::Closed(RuleExpression::Boolean(b)));
                return (Some(RuleExpression::Boolean(b)), Ghost(m@));
            } else if str_eq(m, "cancel") {
                return (None, Ghost(m@));
            } else if str_eq(m, "status") {
                self.say(vec![print_state(root)]);
            } else {
                self.say1("Invalid answer.Enter true or false");
            }
        }
        (None, Ghost(Seq::empty()))
    }

    /// Asks for an integer and puts it at `path` in `root`; also gives the answer the rule was
    /// built from.
    fn create_integer(&self, root: &mut RuleState, path: Vec<usize>) -> (r: (Option<RuleExpression>, Ghost<Seq<char>>))
        ensures
            r.0 matches Some(e) ==> spec_integer_reply(r.1@) matches Some(x) && e@ == RuleValue::Integer(x)
                && final(root)@ == tree_add(old(root)@, path@, 0, RuleTree::Closed(e@)),
            r.0 is None ==> *final(root) == *old(root),
    {
        self.say(vec![text("Enter integer value"), text("Enter 'status' to see rule preview"), text("Enter 'cancel' to go back"),
            text("Enter 'help' to display this message")]);
        let mut waited: u64 = 0;
        while waited < MAX_WAIT
            invariant
                *root == *old(root),
            decreases MAX_WAIT - waited,
        {
            waited += 1;
            let msg = match self.next_message() {
                Some(m) => m,
                None => { return (None, Ghost(Seq::empty())); },
            };
            let m = msg.as_str();
            if str_eq(m, "getstatus") {
                self.status("rulecreator-integer");
            } else if str_eq(m, "cancel") {
                return (None, Ghost(m@));
            } else if str_eq(m, "help") {
                self.say(vec![text("Enter integer value"), text("Enter 'status' to see rule preview"), text("Enter 'cancel' to go back"),
                    text("Enter 'help' to display this message")]);
            } else if str_eq(m, "status") {
                self.say(vec![print_state(root)]);
            } else {
                match integer_reply(m) {
                    Some(x) => {
                        add_node(root, path, 0, RuleState::Closed(RuleExpression::Integer(x)));
                        return (Some(RuleExpression::Integer(x)), Ghost(m@));
                    },
                    None => {
                        self.say1("Invalid integer. Enter integer value");
                    },
                }
            }
        }
        (None, Ghost(Seq::empty()))
    }

    /// Asks for a variable name and puts the variable at `path` in `root`; also gives the
    /// answer the rule was built from.
    fn create_variable(&self, root: &mut RuleState, path: Vec<usize>) -> (r: (Option<RuleExpression>, Ghost<Seq<char>>))
        ensures
            r.0 matches Some(e) ==> spec_variable_reply(r.1@) matches Some(v) && e@ == RuleValue::Variable(v)
                && final(root)@ == tree_add(old(root)@, path@, 0, RuleTree::Closed(e@)),
            r.0 is None ==> *final(root) == *old(root),
    {
        self.say(vec![text("Enter variable name"), text("Enter 'status' to see rule preview"), text("Enter 'cancel' to go back"),
            text("Enter 'help' to display this message")]);
        let mut waited: u64 = 0;
        while waited < MAX_WAIT
            invariant
                *root == *old(root),
            decreases MAX_WAIT - waited,
        {
            waited += 1;
            let msg = match self.next_message() {
                Some(m) => m,
                None => { return (None, Ghost(Seq::empty())); },
            };
            let m = msg.as_str();
            if str_eq(m, "getstatus") {
                self.status("rulecreator-var");
            } else if str_eq(m, "help") {
                self.say(vec![text("Enter variable name"), text("Enter 'status' to see rule preview"), text("Enter 'cancel' to go back"),
                    text("Enter 'help' to display this message")]);
            } else if str_eq(m, "cancel") {
                return (None, Ghost(m@));
            } else if str_eq(m, "status") {
                self.say(vec![print_state(root)]);
            } else {
                match variable_reply(m) {
                    Some(v) => {
                        let copy = v.clone();
                        add_node(root, path, 0, RuleState::Closed(RuleExpression::Variable(copy)));
                        return (Some(RuleExpression::Variable(v)), Ghost(m@));
                    },
                    None => {},
                }
            }
        }
        (None, Ghost(Seq::empty()))
    }

    /// Asks for a call and its arguments, checked against the catalogue, and puts the call at
    /// `path` in `root`; also gives the answer the rule was built from.
    fn create_apicall(&self, root: &mut RuleState, path: Vec<usize>) -> (r: (Option<RuleExpression>, Ghost<Seq<char>>))
        ensures
            r.0 matches Some(e) ==> spec_call_reply(r.1@) == Ok::<RuleValue, Seq<char>>(e@) && known_call(e@)
                && final(root)@ == tree_add(old(root)@, path@, 0, RuleTree::Closed(e@)),
            r.0 is None ==> *final(root) == *old(root),
    {
        let l1 = default_calls();
        self.say(vec![text("To list apicalls enter 'list'"), text("Enter 'status' to see rule preview"), text("Enter 'cancel' to go back"),
            text("Enter 'help' to display this message"), text("Enter ApiCall name and arguments to create ApiCall.")]);
        let mut waited: u64 = 0;
        while waited < MAX_WAIT
            invariant
                *root == *old(root),
                l1@ == calls_table(),
            decreases MAX_WAIT - waited,
        {
            waited += 1;
            let msg = match self.next_message() {
                Some(m) => m,
                None => { return (None, Ghost(Seq::empty())); },
            };
            let m = msg.as_str();
            if str_eq(m, "getstatus") {
                self.status("rulecreator-api");
            } else if str_eq(m, "help") {
                self.say(vec![text("To list apicalls enter 'list'"), text("Enter 'status' to see rule preview"), text("Enter 'cancel' to go back"),
                    text("Enter 'help' to display this message"), text("Enter ApiCall name and arguments to create ApiCall.")]);
            } else if str_eq(m, "list") {
                let mut lines: Vec<String> = Vec::new();
                let mut i: usize = 0;
                while i < l1.entry_count()
                    invariant
                        i <= l1.spec_entries().len(),
                    decreases l1.spec_entries().len() - i,
                {
                    let (k, v) = l1.entry(i);
                    lines.push(cat3(cat(k.as_str(), " ").as_str(), v.1.as_str(), "\n"));
                    i += 1;
                }
                self.say(lines);
            } else if str_eq(m, "cancel") {
                return (None, Ghost(m@));
            } else if str_eq(m, "status") {
                self.say(vec![print_state(root)]);
            } else {
                match call_reply(m, &l1) {
                    Ok(e) => {
                        let e2 = e.duplicate();
                        add_node(root, path, 0, RuleState::Closed(e2));
                        return (Some(e), Ghost(m@));
                    },
                    Err(t) => {
                        self.say1(t.as_str());
                    },
                }
            }
        }
        (None, Ghost(Seq::empty()))
    }
}

impl Game {
    /// The prompt of a step of the rule creator, after an optional note.
    fn prompt(&self, note: &Option<String>, lines: Vec<String>) {
        let mut all: Vec<String> = Vec::new();
        if let Some(n) = note {
            all.push(n.clone());
        }
        let mut i: usize = 0;
        while i < lines.len()
            invariant
                i <= lines@.len(),
            decreases lines.len() - i,
        {
            all.push(lines[i].clone());
            i += 1;
        }
        self.say(all);
    }

    /// Builds a two-part rule (`Pair`, `Equals`, `Diff` or `Sum`, as `typ` says) part by part,
    /// as an open node at `path` in `root`.
    fn create_pair_equals_diff_sum(&self, typ: i32, root: &mut RuleState, path: &mut Vec<usize>, levels: u32) -> (r: Option<RuleExpression>)
        requires
            levels > 0,
        ensures
            final(path)@ == old(path)@,
            r matches Some(e) ==> is_pair_kind(e@, typ),
        decreases levels, 0int,
    {
        let name = pair_name_of(typ);
        let ord = ["first", "second"];
        let mut element: usize = 0;
        let mut contents: Vec<RuleExpression> = Vec::new();
        let mut note: Option<String> = None;
        add_node(root, path.clone(), 0, RuleState::Open { name: text(name), children: Vec::new(), size: 2 });
        let mut waited: u64 = 0;
        while element < 2
            invariant
                element <= 2,
                contents@.len() == element,
                path@ == old(path)@,
                levels > 0,
            decreases MAX_WAIT - waited,
        {
            if waited >= MAX_WAIT {
                return None;
            }
            let create = cat(cat3("Enter 'create' to create ", ord[element], " component of ").as_str(), name);
            self.prompt(&note, vec![create.clone(), text("Enter 'status' to see rule preview"), text("Enter 'cancel' to go back"),
                text("Enter 'help' to display this message")]);
            note = None;
            let mut done = false;
            let ghost w0 = waited;
            while !done
                invariant
                    waited >= w0,
                    done ==> waited > w0,
                    levels > 0,
                    element <= 2,
                    !done ==> element < 2,
                    contents@.len() == element,
                    path@ == old(path)@,
                    waited <= MAX_WAIT,
                decreases MAX_WAIT - waited,
            {
                if waited >= MAX_WAIT {
                    return None;
                }
                waited += 1;
                let msg = match self.next_message() {
                    Some(m) => m,
                    None => { return None; },
                };
                let m = msg.as_str();
                if str_eq(m, "gettype") {
                    self.say1(name);
                } else if str_eq(m, "getstatus") {
                    self.status("rulecreator-pd");
                } else if str_eq(m, "help") {
                    self.say(vec![create.clone(), text("Enter 'status' to see rule preview"), text("Enter 'cancel' to go back"),
                        text("Enter 'help' to display this message")]);
                } else if str_eq(m, "cancel") {
                    pop_node(root, path.clone(), 0);
                    return None;
                } else if str_eq(m, "status") {
                    self.say(vec![print_state(root)]);
                } else if str_eq(m, "create") {
                    path.push(element);
                    match self.create_rule2_in(root, path, levels - 1).0 {
                        Some(e) => {
                            contents.push(e);
                            element += 1;
                        },
                        None => {
                            note = Some(cat(cat3("Did not create ", ord[element], " component of ").as_str(), name));
                        },
                    }
                    path.pop();
                    proof {
                        assert(path@ =~= old(path)@);
                    }
                    done = true;
                } else {
                    self.say1("Unrecognized command");
                }
            }
        }
        let a = Box::new(contents[0].duplicate());
        let b = Box::new(contents[1].duplicate());
        let newrule = if typ == 0 {
            RuleExpression::Pair(a, b)
        } else if typ == 1 {
            RuleExpression::Equals(a, b)
        } else if typ == 2 {
            RuleExpression::Diff(a, b)
        } else {
            RuleExpression::Sum(a, b)
        };
        swap_node(root, path.clone(), 0, RuleState::Closed(newrule.duplicate()));
        Some(newrule)
    }

    /// Builds a one-part rule (`First`, `Second` or `Not`, as `typ` says) as an open node at
    /// `path` in `root`.
    fn create_first_second_not(&self, typ: i32, root: &mut RuleState, path: &mut Vec<usize>, levels: u32) -> (r: Option<RuleExpression>)
        requires
            levels > 0,
        ensures
            final(path)@ == old(path)@,
            r matches Some(e) ==> is_single_kind(e@, typ),
        decreases levels, 0int,
    {
        let name = if typ == 0 { "First" } else if typ == 1 { "Second" } else { "Not" };
        add_node(root, path.clone(), 0, RuleState::Open { name: text(name), children: Vec::new(), size: 1 });
        let mut note: Option<String> = None;
        let mut waited: u64 = 0;
        while waited < MAX_WAIT
            invariant
                path@ == old(path)@,
                levels > 0,
            decreases MAX_WAIT - waited,
        {
            let create = cat("Enter 'create' to create ", name);
            self.prompt(&note, vec![create.clone(), text("Enter 'status' to see rule preview"), text("Enter 'cancel' to go back"),
                text("Enter 'help' to display this message")]);
            note = None;
            let mut done = false;
            let ghost w0 = waited;
            while !done
                invariant
                    waited >= w0,
                    done ==> waited > w0,
                    levels > 0,
                    path@ == old(path)@,
                    waited <= MAX_WAIT,
                decreases MAX_WAIT - waited,
            {
                if waited >= MAX_WAIT {
                    return None;
                }
                waited += 1;
                let msg = match self.next_message() {
                    Some(m) => m,
                    None => { return None; },
                };
                let m = msg.as_str();
                if str_eq(m, "gettype") {
                    self.say1(name);
                } else if str_eq(m, "getstatus") {
                    self.status("rulecreator-pd");
                } else if str_eq(m, "help") {
                    self.say(vec![create.clone(), text("Enter 'status' to see rule preview"), text("Enter 'cancel' to go back"),
                        text("Enter 'help' to display this message")]);
                } else if str_eq(m, "cancel") {
                    pop_node(root, path.clone(), 0);
                    return None;
                } else if str_eq(m, "status") {
                    self.say(vec![print_state(root)]);
                } else if str_eq(m, "create") {
                    path.push(0);
                    let made = self.create_rule2_in(root, path, levels - 1).0;
                    path.pop();
                    proof {
                        assert(path@ =~= old(path)@);
                    }
                    match made {
                        Some(e) => {
                            let newrule = if typ == 0 {
                                RuleExpression::First(Box::new(e))
                            } else if typ == 1 {
                                RuleExpression::Second(Box::new(e))
                            } else {
                                RuleExpression::Not(Box::new(e))
                            };
                            swap_node(root, path.clone(), 0, RuleState::Closed(newrule.duplicate()));
                            return Some(newrule);
                        },
                        None => {
                            note = Some(cat("Did not create ", name));
                        },
                    }
                    done = true;
                } else {
                    self.say1("Unrecognized command");
                    done = true;
                }
            }
        }
        None
    }

    /// Builds a conjunction (with `isand`) or a disjunction of at least two parts, as an open
    /// node at `path` in `root`.
    fn create_and_or(&self, isand: bool, root: &mut RuleState, path: &mut Vec<usize>, levels: u32) -> (r: Option<RuleExpression>)
        requires
            levels > 0,
        ensures
            final(path)@ == old(path)@,
            r matches Some(e) ==> (if isand { e@ matches RuleValue::And(v) && v.len() >= 2 } else { e@ matches RuleValue::Or(v) && v.len() >= 2 }),
        decreases levels, 0int,
    {
        let name = if isand { "And" } else { "Or" };
        let mut contents: Vec<RuleExpression> = Vec::new();
        let mut note: Option<String> = None;
        add_node(root, path.clone(), 0, RuleState::Open { name: text(name), children: Vec::new(), size: -1 });
        let mut waited: u64 = 0;
        while waited < MAX_WAIT
            invariant
                path@ == old(path)@,
                levels > 0,
            decreases MAX_WAIT - waited,
        {
            let state = cat3(cat3("Current state of ", name, ": ").as_str(), write_list(&contents).as_str(), "");
            let help = vec![state.clone(), cat("Enter 'create' to create next element for ", name), cat("Enter 'close' to finish ", name),
                cat("Enter 'list' to see current contents of ", name), text("Enter 'status' to see rule preview"),
                text("Enter 'cancel' to go back"), text("Enter 'help' to display this message")];
            self.prompt(&note, help);
            note = None;
            let mut done = false;
            let ghost w0 = waited;
            while !done
                invariant
                    waited >= w0,
                    done ==> waited > w0,
                    levels > 0,
                    path@ == old(path)@,
                    waited <= MAX_WAIT,
                decreases MAX_WAIT - waited,
            {
                if waited >= MAX_WAIT {
                    return None;
                }
                waited += 1;
                let msg = match self.next_message() {
                    Some(m) => m,
                    None => { return None; },
                };
                let m = msg.as_str();
                if str_eq(m, "gettype") {
                    self.say1(name);
                } else if str_eq(m, "getstatus") {
                    self.status("rulecreator-pd");
                } else if str_eq(m, "help") {
                    let state = cat3(cat3("Current state of ", name, ": ").as_str(), write_list(&contents).as_str(), "");
                    self.say(vec![state, cat("Enter 'create' to create next element for ", name), cat("Enter 'close' to finish ", name),
                        cat("Enter 'list' to see current contents of ", name), text("Enter 'status' to see rule preview"),
                        text("Enter 'cancel' to go back"), text("Enter 'help' to display this message")]);
                } else if str_eq(m, "status") {
                    self.say(vec![print_state(root)]);
                } else if str_eq(m, "cancel") {
                    pop_node(root, path.clone(), 0);
                    return None;
                } else if str_eq(m, "close") {
                    if contents.len() < 2 {
                        note = Some(text("Contents length is lower than 2 could not close"));
                        done = true;
                    } else {
                        proof {
                            crate::rule::lemma_view_rules(contents@);
                        }
                        let copy = RuleExpression::duplicate_all(&contents);
                        let newrule = if isand { RuleExpression::And(contents) } else { RuleExpression::Or(contents) };
                        let closed = if isand { RuleExpression::And(copy) } else { RuleExpression::Or(copy) };
                        proof {
                            crate::rule::lemma_view_rules(copy@);
                        }
                        swap_node(root, path.clone(), 0, RuleState::Closed(closed));
                        return Some(newrule);
                    }
                } else if str_eq(m, "list") {
                    let state = cat3(cat3("Current state of ", name, ": ").as_str(), write_list(&contents).as_str(), "");
                    self.say(vec![state]);
                } else if str_eq(m, "create") {
                    path.push(contents.len());
                    match self.create_rule2_in(root, path, levels - 1).0 {
                        Some(e) => {
                            contents.push(e);
                        },
                        None => {
                            note = Some(cat("Did not create next element in ", name));
                        },
                    }
                    path.pop();
                    proof {
                        assert(path@ =~= old(path)@);
                    }
                    done = true;
                } else {
                    self.say1("Unrecognized command");
                }
            }
        }
        None
    }

    /// Builds a conditional from its condition and its two branches, as an open node at `path`
    /// in `root`.
    fn create_if(&self, root: &mut RuleState, path: &mut Vec<usize>, levels: u32) -> (r: Option<RuleExpression>)
        requires
            levels > 0,
        ensures
            final(path)@ == old(path)@,
            r matches Some(e) ==> e is If,
        decreases levels, 0int,
    {
        let elements = ["condition", "then-branch", "else-branch"];
        let mut element: usize = 0;
        let mut contents: Vec<RuleExpression> = Vec::new();
        let mut note: Option<String> = None;
        add_node(root, path.clone(), 0, RuleState::Open { name: text("If"), children: Vec::new(), size: 3 });
        let mut waited: u64 = 0;
        while element < 3
            invariant
                element <= 3,
                contents@.len() == element,
                path@ == old(path)@,
                levels > 0,
            decreases MAX_WAIT - waited,
        {
            if waited >= MAX_WAIT {
                return None;
            }
            let create = cat("Enter 'create' to create ", elements[element]);
            self.prompt(&note, vec![create.clone(), text("Enter 'status' to see rule preview"), text("Enter 'cancel' to go back"),
                text("Enter 'help' to display this message")]);
            note = None;
            let mut done = false;
            let ghost w0 = waited;
            while !done
                invariant
                    waited >= w0,
                    done ==> waited > w0,
                    levels > 0,
                    element <= 3,
                    !done ==> element < 3,
                    contents@.len() == element,
                    path@ == old(path)@,
                    waited <= MAX_WAIT,
                decreases MAX_WAIT - waited,
            {
                if waited >= MAX_WAIT {
                    return None;
                }
                waited += 1;
                let msg = match self.next_message() {
                    Some(m) => m,
                    None => { return None; },
                };
                let m = msg.as_str();
                if str_eq(m, "gettype") {
                    self.say1("If");
                } else if str_eq(m, "getstatus") {
                    self.status("rulecreator-pd");
                } else if str_eq(m, "help") {
                    self.say(vec![create.clone(), text("Enter 'status' to see rule preview"), text("Enter 'cancel' to go back"),
                        text("Enter 'help' to display this message")]);
                } else if str_eq(m, "cancel") {
                    pop_node(root, path.clone(), 0);
                    return None;
                } else if str_eq(m, "status") {
                    self.say(vec![print_state(root)]);
                } else if str_eq(m, "create") {
                    path.push(element);
                    match self.create_rule2_in(root, path, levels - 1).0 {
                        Some(e) => {
                            contents.push(e);
                            element += 1;
                        },
                        None => {
                            note = Some(cat("Did not create ", elements[element]));
                        },
                    }
                    path.pop();
                    proof {
                        assert(path@ =~= old(path)@);
                    }
                    done = true;
                } else {
                    self.say1("Unrecognized command");
                }
            }
        }
        let newrule = RuleExpression::If(Box::new(contents[0].duplicate()), Box::new(contents[1].duplicate()), Box::new(contents[2].duplicate()));
        swap_node(root, path.clone(), 0, RuleState::Closed(newrule.duplicate()));
        Some(newrule)
    }

    /// The menu of kinds of rule.
    fn rule_menu(&self) {
        self.say(vec![text("Pick an expression type"), text("1. Void"), text("2. Boolean"), text("3. Integer"), text("4. Variable"),
            text("5. ApiCall"), text("6. Pair"), text("7. First"), text("8. Second"), text("9. Diff"), text("10. And"), text("11. Or"),
            text("12. Not"), text("13. If"), text("14. Equals"), text("Enter 'cancel' to go back"), text("Enter 'state' to see rule preview"),
            text("Enter 'help' to display this message")]);
    }

    /// Asks for the kind of rule to build at `path` in `root` and builds it; parts may nest
    /// `levels` deep. Also gives the choice of the menu the rule was built from: the rule is of
    /// the kind it names.
    pub(crate) fn create_rule2_in(&self, root: &mut RuleState, path: &mut Vec<usize>, levels: u32) -> (r: (Option<RuleExpression>, Ghost<Seq<char>>))
        ensures
            final(path)@ == old(path)@,
            r.0 matches Some(e) ==> spec_menu_choice(r.1@) == Some(menu_kind(e@)),
        decreases levels, 1int,
    {
        if levels == 0 {
            self.say1("Rule nested too deeply");
            return (None, Ghost(Seq::empty()));
        }
        self.rule_menu();
        let mut waited: u64 = 0;
        while waited < MAX_WAIT
            invariant
                path@ == old(path)@,
                levels > 0,
            decreases MAX_WAIT - waited,
        {
            waited += 1;
            let msg = match self.next_message() {
                Some(m) => m,
                None => { return (None, Ghost(Seq::empty())); },
            };
            let m = msg.as_str();
            let g = Ghost(m@);
            if str_eq(m, "getstatus") {
                self.status("rulecreator");
            } else if str_eq(m, "help") {
                self.rule_menu();
            } else if str_eq(m, "cancel") {
                return (None, g);
            } else if str_eq(m, "status") {
                self.say(vec![print_state(root)]);
            } else {
                let made = match menu_choice(m) {
                    Some(1) => {
                        add_node(root, path.clone(), 0, RuleState::Closed(RuleExpression::Void));
                        Some(Some(RuleExpression::Void))
                    },
                    Some(2) => Some(self.create_boolean(root, path.clone()).0),
                    Some(3) => Some(self.create_integer(root, path.clone()).0),
                    Some(4) => Some(self.create_variable(root, path.clone()).0),
                    Some(5) => Some(self.create_apicall(root, path.clone()).0),
                    Some(6) => Some(self.create_pair_equals_diff_sum(0, root, path, levels)),
                    Some(7) => Some(self.create_first_second_not(0, root, path, levels)),
                    Some(8) => Some(self.create_first_second_not(1, root, path, levels)),
                    Some(9) => Some(self.create_pair_equals_diff_sum(2, root, path, levels)),
                    Some(10) => Some(self.create_and_or(true, root, path, levels)),
                    Some(11) => Some(self.create_and_or(false, root, path, levels)),
                    Some(12) => Some(self.create_first_second_not(2, root, path, levels)),
                    Some(13) => Some(self.create_if(root, path, levels)),
                    Some(14) => Some(self.create_pair_equals_diff_sum(1, root, path, levels)),
                    Some(15) => Some(self.create_pair_equals_diff_sum(3, root, path, levels)),
                    _ => None,
                };
                match made {
                    Some(r) => { return (r, g); },
                    None => {
                        self.say1("Unrecognized option, please pick one of the available options.");
                    },
                }
            }
        }
        (None, Ghost(Seq::empty()))
    }

    /// Asks for the kind of rule to build at `path` in `root` and builds it.
    pub(crate) fn create_rule2(&self, root: &mut RuleState, path: &mut Vec<usize>) -> (r: Option<RuleExpression>)
        ensures
            final(path)@ == old(path)@,
    {
        self.create_rule2_in(root, path, RULE_NESTING).0
    }

    /// Builds a rule in the rule creator; unless `silent`, tells the player whether a rule was
    /// made.
    pub(crate) fn create_rule(&self, root: &mut RuleState, path: &mut Vec<usize>, silent: bool) -> (r: Option<RuleExpression>)
        ensures
            final(path)@ == old(path)@,
    {
        let ret = self.create_rule2(root, path);
        if !silent {
            if ret.is_some() {
                self.say1("Rule created.");
            } else {
                self.say1("Failed to create a rule.");
            }
        }
        ret
    }

    /// Builds a rule from nothing in the rule creator.
    pub(crate) fn new_rule(&self, silent: bool) -> Option<RuleExpression> {
        let mut root = RuleState::Empty;
        let mut path: Vec<usize> = Vec::new();
        self.create_rule(&mut root, &mut path, silent)
    }
}

/// Whether `b1` is `b0` with at most one kind of piece added: one with an id and a name, under
/// an id that `b0` did not know.
pub open spec fn exported(b0: &Board, b1: &Board) -> bool {
    &&& b1.board == b0.board
    &&& b1.size == b0.size
    &&& b1.cementaries == b0.cementaries
    &&& b1.endcondition == b0.endcondition
    &&& b1.wincondition == b0.wincondition
    &&& b1.current_player == b0.current_player
    &&& b1.history == b0.history
    &&& b1.history_size == b0.history_size
    &&& b1.revive == b0.revive
    &&& (b1.pieces@ == b0.pieces@ || exists|p: PieceView| #![trigger b0.pieces@.insert(p.id, p)]
        p.id.len() > 0 && p.name.len() > 0 && !b0.pieces@.contains_key(p.id) && b1.pieces@ == b0.pieces@.insert(p.id, p))
}

/// How the piece creator ends: done (the piece was exported or dropped, or the player left),
/// or waiting while the piece is sent in the exchange format.
pub enum PieceExit {
    Done,
    Share(Piece),
}

/// What the piece creator does with one command, besides changing the piece: reply with some
/// lines, leave, send its status, export the piece, share it, or start a dialog (rules, moves,
/// memory) or show the memory, which the creator itself runs.
pub enum PieceCommand {
    Reply(Vec<String>),
    Leave,
    Status,
    Export,
    Share,
    Other,
}

/// A command's effect, as values.
pub ghost enum PieceCommandView {
    Reply(Seq<Seq<char>>),
    Leave,
    Status,
    Export,
    Share,
    Other,
}

impl View for PieceCommand {
    type V = PieceCommandView;

    open spec fn view(&self) -> PieceCommandView {
        match self {
            PieceCommand::Reply(v) => PieceCommandView::Reply(v@.map_values(|l: String| l@)),
            PieceCommand::Leave => PieceCommandView::Leave,
            PieceCommand::Status => PieceCommandView::Status,
            PieceCommand::Export => PieceCommandView::Export,
            PieceCommand::Share => PieceCommandView::Share,
            PieceCommand::Other => PieceCommandView::Other,
        }
    }
}

/// The commands the piece creator lists for `help`.
pub open spec fn piece_help() -> Seq<Seq<char>> {
    seq!["- 'cancel': Go to piece placement"@, "- 'export' to export a piece"@, "- show id"@, "- show name"@, "- show deathrattle"@, "- show battlecry"@, "- show passive"@, "- show onmove"@, "- show aftermove"@, "- show onkill"@, "- show possiblemoves"@, "- show movecondition"@, "- show memory"@, "- set id"@, "- set name"@, "- add deathrattle"@, "- add battlecry"@, "- add passive"@, "- add onmove"@, "- add aftermove"@, "- add onkill"@, "- add move"@, "- set movecondition"@, "- add memory"@, "- 'help': list available commands"@]
}

/// Whether a command starts a dialog of the piece creator, or shows the memory.
pub open spec fn piece_dialog(msg: Seq<char>) -> bool {
    ||| msg == "add deathrattle"@ || msg == "add battlecry"@ || msg == "add passive"@
    ||| msg == "add onmove"@ || msg == "add aftermove"@ || msg == "add onkill"@
    ||| msg == "add move"@ || msg == "set movecondition"@ || msg == "add memory"@ || msg == "show memory"@
}

/// What one command of the piece creator does to the piece `p` and what it answers.
pub open spec fn piece_command_of(p: PieceView, msg: Seq<char>) -> (PieceView, PieceCommandView) {
    if msg == "help"@ {
        (p, PieceCommandView::Reply(piece_help()))
    } else if msg == "cancel"@ {
        (p, PieceCommandView::Leave)
    } else if msg == "getstatus"@ {
        (p, PieceCommandView::Status)
    } else if msg == "export"@ {
        (p, PieceCommandView::Export)
    } else if msg == "share"@ {
        (p, PieceCommandView::Share)
    } else if msg == "show id"@ {
        (p, PieceCommandView::Reply(seq![p.id]))
    } else if msg == "show name"@ {
        (p, PieceCommandView::Reply(seq![p.name]))
    } else if msg == "show deathrattle"@ {
        (p, PieceCommandView::Reply(seq![crate::game::debug_opt_list(p.deathrattle)]))
    } else if msg == "show battlecry"@ {
        (p, PieceCommandView::Reply(seq![crate::game::debug_opt_list(p.battlecry)]))
    } else if msg == "show passive"@ {
        (p, PieceCommandView::Reply(seq![crate::game::debug_opt_list(p.passive)]))
    } else if msg == "show onmove"@ {
        (p, PieceCommandView::Reply(seq![crate::game::debug_opt_list(p.onmove)]))
    } else if msg == "show aftermove"@ {
        (p, PieceCommandView::Reply(seq![crate::game::debug_opt_list(p.aftermove)]))
    } else if msg == "show onkill"@ {
        (p, PieceCommandView::Reply(seq![crate::game::debug_opt_list(p.onkill)]))
    } else if msg == "show possiblemoves"@ {
        (p, PieceCommandView::Reply(seq!["["@ + crate::game::moves_joined(p.possiblemoves) + "]"@]))
    } else if msg == "show movecondition"@ {
        (p, PieceCommandView::Reply(seq![crate::game::debug_opt(p.movecondition)]))
    } else if piece_dialog(msg) {
        (p, PieceCommandView::Other)
    } else if crate::game::has_prefix(msg, "set id"@) || crate::game::has_prefix(msg, "set name"@) {
        let is_id = crate::game::has_prefix(msg, "set id"@);
        let args = crate::text::spec_words(crate::text::spec_trim(crate::text::strip_prefixes(msg, if is_id { "set id"@ } else { "set name"@ })));
        if args.len() != 1 {
            (p, PieceCommandView::Reply(seq!["wrong number of args expected 1 got "@ + crate::text::int_text(args.len() as int)]))
        } else if is_id {
            (PieceView { id: args[0], ..p }, PieceCommandView::Reply(seq!["set id to "@ + args[0]]))
        } else {
            (PieceView { name: args[0], ..p }, PieceCommandView::Reply(seq!["set name to "@ + args[0]]))
        }
    } else {
        (p, PieceCommandView::Reply(seq!["unknown command"@]))
    }
}

/// Carries out one command of the piece creator on `piece` (see `piece_command_of`).
pub fn piece_command(piece: &mut Piece, msg: &str) -> (r: PieceCommand)
    ensures
        (final(piece)@, r@) == piece_command_of(old(piece)@, msg@),
        final(piece).owner == old(piece).owner,
{
    if str_eq(msg, "help") {
        let lines = vec![text("- 'cancel': Go to piece placement"), text("- 'export' to export a piece"), text("- show id"), text("- show name"), text("- show deathrattle"), text("- show battlecry"), text("- show passive"), text("- show onmove"), text("- show aftermove"), text("- show onkill"), text("- show possiblemoves"), text("- show movecondition"), text("- show memory"), text("- set id"), text("- set name"), text("- add deathrattle"), text("- add battlecry"), text("- add passive"), text("- add onmove"), text("- add aftermove"), text("- add onkill"), text("- add move"), text("- set movecondition"), text("- add memory"), text("- 'help': list available commands")];
        proof {
            assert(lines@.map_values(|l: String| l@) =~= piece_help());
        }
        return PieceCommand::Reply(lines);
    }
    if str_eq(msg, "cancel") { return PieceCommand::Leave; }
    if str_eq(msg, "getstatus") { return PieceCommand::Status; }
    if str_eq(msg, "export") { return PieceCommand::Export; }
    if str_eq(msg, "share") { return PieceCommand::Share; }
    let line = if str_eq(msg, "show id") {
        piece.id.clone()
    } else if str_eq(msg, "show name") {
        piece.name.clone()
    } else if str_eq(msg, "show deathrattle") {
        crate::game::write_opt_list(&piece.deathrattle)
    } else if str_eq(msg, "show battlecry") {
        crate::game::write_opt_list(&piece.battlecry)
    } else if str_eq(msg, "show passive") {
        crate::game::write_opt_list(&piece.passive)
    } else if str_eq(msg, "show onmove") {
        crate::game::write_opt_list(&piece.onmove)
    } else if str_eq(msg, "show aftermove") {
        crate::game::write_opt_list(&piece.aftermove)
    } else if str_eq(msg, "show onkill") {
        crate::game::write_opt_list(&piece.onkill)
    } else if str_eq(msg, "show possiblemoves") {
        crate::game::write_moves(&piece.possiblemoves)
    } else if str_eq(msg, "show movecondition") {
        crate::game::write_opt(&piece.movecondition)
    } else if str_eq(msg, "add deathrattle") || str_eq(msg, "add battlecry") || str_eq(msg, "add passive")
        || str_eq(msg, "add onmove") || str_eq(msg, "add aftermove") || str_eq(msg, "add onkill")
        || str_eq(msg, "add move") || str_eq(msg, "set movecondition") || str_eq(msg, "add memory") || str_eq(msg, "show memory") {
        return PieceCommand::Other;
    } else if starts_with(msg, "set id") || starts_with(msg, "set name") {
        let is_id = starts_with(msg, "set id");
        let command = trim_text(trim_start_matches(msg, if is_id { "set id" } else { "set name" }));
        let args = words(command);
        proof {
            assert(args@.map_values(|w: &str| w@).len() == args@.len());
        }
        if args.len() != 1 {
            cat("wrong number of args expected 1 got ", count_text(args.len()).as_str())
        } else if is_id {
            proof { assert(args@.map_values(|w: &str| w@)[0] == args@[0]@); }
            piece.id = text(args[0]);
            cat("set id to ", args[0])
        } else {
            proof { assert(args@.map_values(|w: &str| w@)[0] == args@[0]@); }
            piece.name = text(args[0]);
            cat("set name to ", args[0])
        }
    } else {
        text("unknown command")
    };
    let lines = vec![line];
    proof {
        assert(lines@.map_values(|l: String| l@) =~= seq![line@]);
    }
    PieceCommand::Reply(lines)
}

/// Adds a rule to an optional list of rules, making the list when there is none.
fn push_rule(list: &mut Option<Vec<RuleExpression>>, e: RuleExpression)
    ensures
        crate::piece::view_opt_rules(*final(list)) == Some(match crate::piece::view_opt_rules(*old(list)) {
            Some(s) => s.push(e@),
            None => seq![e@],
        }),
{
    match list {
        Some(v) => {
            let ghost before = v@;
            v.push(e);
            proof {
                assert(v@.drop_last() == before);
            }
        },
        None => {
            let mut v: Vec<RuleExpression> = Vec::new();
            v.push(e);
            proof {
                crate::rule::lemma_view_rules(v@);
                assert(crate::rule::view_rules(v@) =~= seq![e@]);
            }
            *list = Some(v);
        },
    }
}

impl Game {
    /// The move creator: the player sets the condition of a move and adds its consequences;
    /// `export` gives the move, `cancel` gives nothing.
    pub(crate) fn create_move(&self) -> Option<PMove> {
        let mut mv = PMove::default_move();
        let mut waited: u64 = 0;
        while waited < MAX_WAIT
            decreases MAX_WAIT - waited,
        {
            waited += 1;
            let msg = match self.next_message() {
                Some(m) => m,
                None => { return None; },
            };
            let m = msg.as_str();
            if str_eq(m, "help") {
                self.say(vec![text("- show condition"), text("- show consequences"), text("- set condition"), text("- add consequence"),
                    text("- cancel: go back to piece creation"), text("- export: add move and go back to piece creation"),
                    text("- 'help': list available commands"), text("Tip: Use 'show' at any point to view the board")]);
            } else if str_eq(m, "show condition") {
                self.say(vec![crate::eval::debug_text(&mv.condition)]);
            } else if str_eq(m, "show consequences") {
                self.say(vec![crate::game::write_consequences(&mv.consequences)]);
            } else if str_eq(m, "set condition") {
                if let Some(c) = self.new_rule(false) {
                    mv.condition = Box::new(c);
                }
            } else if str_eq(m, "getstatus") {
                self.status("movecreator");
            } else if str_eq(m, "add consequence") {
                if let Some(c) = self.new_rule(false) {
                    match &mut mv.consequences {
                        Some(v) => { v.push(Box::new(c)); },
                        None => { mv.consequences = Some(vec![Box::new(c)]); },
                    }
                }
            } else if str_eq(m, "export") {
                self.say1("exporting move, going back to create piece");
                return Some(mv);
            } else if str_eq(m, "cancel") {
                self.say1("movecreate cancelled, going back to create piece");
                return None;
            } else {
                self.say1("unknown command, use 'help' to list available commands");
            }
        }
        None
    }

    /// Asks for the name of a memory entry and the rule to store under it; the player may try
    /// again after a rule fails (with the text interface).
    fn add_memory(&self, piece: &mut Piece)
        ensures
            final(piece).id == old(piece).id,
            final(piece).name == old(piece).name,
    {
        self.say1("Enter memory name:");
        let mut waited: u64 = 0;
        while waited < MAX_WAIT
            invariant
                piece.id == old(piece).id,
                piece.name == old(piece).name,
            decreases MAX_WAIT - waited,
        {
            waited += 1;
            let name = match self.next_message() {
                Some(m) => m,
                None => { return; },
            };
            match self.new_rule(true) {
                Some(contents) => {
                    piece.memory.insert(name, contents);
                    self.say1("Created memory");
                    return;
                },
                None => {
                    self.say1("Invalid rule, would you like to try creating memory [y/n]");
                    if !self.tui {
                        return;
                    }
                    let mut again = false;
                    let ghost w1 = waited;
                    while !again && waited < MAX_WAIT
                        invariant
                            waited >= w1,
                            piece.id == old(piece).id,
                            piece.name == old(piece).name,
                        decreases MAX_WAIT - waited,
                    {
                        waited += 1;
                        let answer = match self.next_message() {
                            Some(m) => m,
                            None => { return; },
                        };
                        if str_eq(answer.as_str(), "y") {
                            self.say1("Enter memory name:");
                            again = true;
                        } else if str_eq(answer.as_str(), "n") {
                            self.say1("Canceled");
                            return;
                        } else {
                            self.say(vec![text("Unrecognized command"), text("Enter y/n.")]);
                        }
                    }
                },
            }
        }
    }

    /// The piece creator, working on `piece`: the player names the piece, adds rules, moves and
    /// memory, and exports it to the game's kinds of piece; `share` asks for the piece to be sent
    /// in the exchange format, after which the creator goes on.
    pub fn create_piece(&mut self, piece: Piece) -> (r: PieceExit)
        ensures
            final(self).current_mode == old(self).current_mode,
            final(self).replies == old(self).replies,
            (final(self).board is Some) == (old(self).board is Some),
            old(self).board matches Some(b0) ==> (final(self).board matches Some(b1) && exported(&b0, &b1)
                && (r is Share ==> b1.pieces@ == b0.pieces@)),
            old(self).board matches Some(b0) ==> (final(self).board matches Some(b1) && (b1.pieces@ == b0.pieces@
                || exists|p: PieceView| #![trigger b0.pieces@.insert(p.id, p)]
                    p.id.len() > 0 && p.name.len() > 0 && b1.pieces@ == b0.pieces@.insert(p.id, p))),
    {
        let mut piece = piece;
        let mut waited: u64 = 0;
        while waited < MAX_WAIT
            invariant
                self.current_mode == old(self).current_mode,
                self.replies == old(self).replies,
                (self.board is Some) == (old(self).board is Some),
                old(self).board matches Some(b0) ==> (self.board matches Some(b1) && exported(&b0, &b1) && b1.pieces@ == b0.pieces@),
            decreases MAX_WAIT - waited,
        {
            waited += 1;
            let msg = match self.next_message() {
                Some(m) => m,
                None => { return PieceExit::Done; },
            };
            let m = msg.as_str();
            match piece_command(&mut piece, m) {
                PieceCommand::Reply(lines) => {
                    self.say(lines);
                },
                PieceCommand::Leave => {
                    self.say1("Returning to piece placement");
                    return PieceExit::Done;
                },
                PieceCommand::Status => {
                    self.status("piececreator");
                },
                PieceCommand::Export => {
                    if piece.id.as_str().unicode_len() == 0 || piece.name.as_str().unicode_len() == 0 {
                        self.say1("piece name and id must not be empty");
                    } else {
                        let res = match &mut self.board {
                            Some(b) => b.add_piece2(piece.duplicate()),
                            None => Err(text("No board initialized yet.")),
                        };
                        match res {
                            Ok(()) => {
                                proof {
                                    let b0 = old(self).board->0;
                                    let b1 = self.board->0;
                                    assert(b1.pieces@ == b0.pieces@.insert(piece@.id, piece@));
                                }
                                self.say1("exported a piece, going back to piece placement");
                                return PieceExit::Done;
                            },
                            Err(e) => {
                                self.say(vec![cat("Sth went wrong ", e.as_str())]);
                            },
                        }
                    }
                },
                PieceCommand::Share => {
                    return PieceExit::Share(piece);
                },
                PieceCommand::Other => {
                    if str_eq(m, "show memory") {
                        self.say(vec![crate::game::write_memory(&piece.memory)]);
                    } else if str_eq(m, "add deathrattle") {
                        if let Some(e) = self.new_rule(false) { push_rule(&mut piece.deathrattle, e); }
                    } else if str_eq(m, "add battlecry") {
                        if let Some(e) = self.new_rule(false) { push_rule(&mut piece.battlecry, e); }
                    } else if str_eq(m, "add passive") {
                        if let Some(e) = self.new_rule(false) { push_rule(&mut piece.passive, e); }
                    } else if str_eq(m, "add onmove") {
                        if let Some(e) = self.new_rule(false) { push_rule(&mut piece.onmove, e); }
                    } else if str_eq(m, "add aftermove") {
                        if let Some(e) = self.new_rule(false) { push_rule(&mut piece.aftermove, e); }
                    } else if str_eq(m, "add onkill") {
                        if let Some(e) = self.new_rule(false) { push_rule(&mut piece.onkill, e); }
                    } else if str_eq(m, "add move") {
                        self.say(vec![text("Welcome to MoveCreator"), text("- show condition"), text("- show consequences"), text("- set condition"),
                            text("- add consequence"), text("- cancel: go back to piece creation"), text("- export: add move and go back to piece creation"),
                            text("- 'help': list available commands"), text("Tip: Use 'show' at any point to view the board")]);
                        if let Some(mv) = self.create_move() {
                            piece.possiblemoves.push(mv);
                        }
                    } else if str_eq(m, "set movecondition") {
                        piece.movecondition = self.new_rule(false);
                    } else {
                        self.add_memory(&mut piece);
                    }
                },
            }
        }
        PieceExit::Done
    }
}

} // verus!
