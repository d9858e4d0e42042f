use vstd::prelude::*;
use vstd::string::StringExecFns;

use crate::config::{NodeConfig, SshverConfig};
use crate::pieces::{
    dedup, dedup_exec, join_strings, join_with, not_among, not_among_exec, sort_strings, sorts,
    split_on, split_on_exec, trim_all, trim_each,
};
use crate::plan::{id_listed_exec, node_selected, selected_nodes};
use crate::session::texts;
use crate::text::{
    char_index_exec, char_index_from, chars_of, string_of, string_of_range,
    sub_chars, trim, trim_range, trim_start, trim_start_from,
};

verus! {

broadcast use vstd::string::group_string_axioms;

// ---------------------------------------------------------------------------
// Reading an input line.
// ---------------------------------------------------------------------------

/// Whether `t` begins with the special-command mark `!!`.
pub open spec fn marked(t: Seq<char>) -> bool {
    t.len() >= 2 && t[0] == '!' && t[1] == '!'
}

/// The special command in `line`: a line whose text, leading white space
/// skipped, begins with `!!`. After the mark, leading white space skipped,
/// the name up to the first space and the trimmed rest; none when the line
/// is not marked or nothing follows the mark.
pub open spec fn special_command(line: Seq<char>) -> Option<(Seq<char>, Seq<char>)> {
    let t = trim_start(line);
    if !marked(t) {
        None
    } else {
        let rest = trim_start(t.skip(2));
        match char_index_from(rest, ' ', 0) {
            Some(i) => Some((rest.take(i as int), trim(rest.skip(i + 1int)))),
            None => if rest.len() == 0 {
                None
            } else {
                Some((rest, Seq::<char>::empty()))
            },
        }
    }
}

/// The special command (`!!name args`) in `line`, if any.
pub fn parse_special_command(line: &str) -> (r: Option<(String, String)>)
    ensures
        match r {
            Some((cmd, args)) => special_command(line@) == Some((cmd@, args@)),
            None => special_command(line@) is None,
        },
{
    let cs = chars_of(line);
    let a0 = trim_start_from(&cs, 0, cs.len());
    assert(cs@.subrange(0, cs@.len() as int) =~= cs@);
    let ghost t = trim_start(cs@);
    assert(t =~= cs@.skip(a0 as int));
    if !(a0 < cs.len() && cs.len() - a0 >= 2 && cs[a0] == '!' && cs[a0 + 1] == '!') {
        return None;
    }
    let start = a0 + 2;
    let a = trim_start_from(&cs, start, cs.len());
    let rest = sub_chars(&cs, a, cs.len());
    assert(t.skip(2) =~= cs@.subrange(start as int, cs@.len() as int));
    match char_index_exec(&rest, ' ', 0) {
        Some(i) => {
            proof {
                crate::text::lemma_char_index_from_found(rest@, ' ', 0);
            }
            let cmd = string_of_range(&rest, 0, i);
            let (lo, hi) = trim_range(&rest, i + 1, rest.len());
            let args = string_of_range(&rest, lo, hi);
            assert(rest@.subrange(0, i as int) =~= rest@.take(i as int));
            assert(rest@.subrange(i + 1, rest@.len() as int) =~= rest@.skip(i + 1));
            Some((cmd, args))
        },
        None => {
            if rest.len() == 0 {
                None
            } else {
                let cmd = string_of(&rest);
                Some((cmd, String::new()))
            }
        },
    }
}

/// A special command's name is never empty, does not begin with white
/// space and holds no space; and a line yields one only when, leading white
/// space skipped, it begins with `!!`.
pub proof fn law_special_command_name(line: Seq<char>)
    ensures
        match special_command(line) {
            Some((cmd, _)) => {
                &&& cmd.len() > 0
                &&& !crate::text::is_white_space(cmd[0])
                &&& forall|k: int| 0 <= k < cmd.len() ==> cmd[k] != ' '
                &&& marked(trim_start(line))
            },
            None => true,
        },
{
    let t = trim_start(line);
    if marked(t) {
        let rest = trim_start(t.skip(2));
        crate::pieces::lemma_trim_start(t.skip(2));
        crate::text::lemma_char_index_from_found(rest, ' ', 0);
    }
}

/// What to do with a line typed in interactive mode.
#[derive(Debug)]
pub enum LineAction {
    /// Nothing was typed.
    Skip,
    /// `exit` or `quit`.
    Exit,
    /// A special command.
    Special { cmd: String, args: String },
    /// A command to run on the target nodes.
    Run(String),
}

/// What a typed line asks for.
pub fn interpret_line(line: &str) -> (r: LineAction)
    ensures
        match r {
            LineAction::Skip => trim(line@).len() == 0,
            LineAction::Exit => trim(line@).len() > 0 && (trim(line@) == "exit"@ || trim(line@)
                == "quit"@),
            LineAction::Special { cmd, args } => {
                &&& trim(line@).len() > 0
                &&& trim(line@) != "exit"@
                &&& trim(line@) != "quit"@
                &&& special_command(trim(line@)) == Some((cmd@, args@))
            },
            LineAction::Run(command) => {
                &&& trim(line@).len() > 0
                &&& trim(line@) != "exit"@
                &&& trim(line@) != "quit"@
                &&& special_command(trim(line@)) is None
                &&& command@ == trim(line@)
            },
        },
{
    let cs = chars_of(line);
    let (lo, hi) = trim_range(&cs, 0, cs.len());
    assert(cs@.subrange(0, cs@.len() as int) =~= cs@);
    let t = string_of_range(&cs, lo, hi);
    if lo == hi {
        return LineAction::Skip;
    }
    if t == String::from_str("exit") || t == String::from_str("quit") {
        return LineAction::Exit;
    }
    match parse_special_command(t.as_str()) {
        Some((cmd, args)) => LineAction::Special { cmd, args },
        None => LineAction::Run(t),
    }
}

/// The interactive prompt: `myssh[names]> `, with the working directory
/// before `> ` when one is set and not empty.
pub open spec fn prompt_text(node_names: Seq<char>, current_dir: Option<Seq<char>>) -> Seq<char> {
    let dir = match current_dir {
        Some(d) => d,
        None => Seq::<char>::empty(),
    };
    "myssh["@ + node_names + "]"@ + dir + "> "@
}

/// The interactive prompt.
pub fn build_prompt(node_names: &str, current_dir: &Option<String>) -> (r: String)
    ensures
        r@ == prompt_text(
            node_names@,
            match current_dir {
                Some(d) => Some(d@),
                None => None,
            },
        ),
{
    let mut r = String::from_str("myssh[");
    r.append(node_names);
    r.append("]");
    match current_dir {
        Some(d) => {
            r.append(d.as_str());
        },
        None => {},
    }
    r.append("> ");
    proof {
        if current_dir is None {
            assert(r@ =~= prompt_text(node_names@, None));
        }
    }
    r
}

// ---------------------------------------------------------------------------
// Target nodes.
// ---------------------------------------------------------------------------

/// The ids of the nodes, in configuration order.
pub open spec fn node_ids(nodes: Seq<NodeConfig>) -> Seq<Seq<char>> {
    nodes.map_values(|n: NodeConfig| n.id@)
}

/// The ids of the nodes.
pub fn node_id_list(nodes: &Vec<NodeConfig>) -> (r: Vec<String>)
    ensures
        texts(r@) == node_ids(nodes@),
{
    let mut r: Vec<String> = Vec::new();
    let mut i: usize = 0;
    while i < nodes.len()
        invariant
            i <= nodes.len(),
            texts(r@) == node_ids(nodes@).take(i as int),
        decreases nodes.len() - i,
    {
        let ghost old_r = r@;
        r.push(nodes[i].id.clone());
        assert(texts(r@) =~= texts(old_r).push(nodes@[i as int].id@));
        i = i + 1;
        assert(node_ids(nodes@).take(i as int) =~= node_ids(nodes@).take(i - 1).push(
            nodes@[i - 1].id@,
        ));
    }
    assert(node_ids(nodes@).take(nodes.len() as int) =~= node_ids(nodes@));
    r
}

/// The node ids that `--nodes` lists: the comma separated pieces, trimmed,
/// each once.
pub open spec fn listed_nodes(s: Seq<char>) -> Seq<Seq<char>> {
    dedup(trim_all(split_on(s, ',')))
}

/// The node ids that `--nodes` lists.
pub fn parse_node_list(s: &str) -> (r: Vec<String>)
    ensures
        texts(r@) == listed_nodes(s@),
{
    let cs = chars_of(s);
    let pieces = split_on_exec(&cs, ',');
    let trimmed = trim_each(&pieces);
    dedup_exec(&trimmed)
}

/// The ids among `ids` that no node has, in order.
pub fn missing_node_ids(ids: &Vec<String>, nodes: &Vec<NodeConfig>) -> (r: Vec<String>)
    ensures
        texts(r@) == not_among(texts(ids@), node_ids(nodes@)),
{
    let all = node_id_list(nodes);
    not_among_exec(ids, &all)
}

/// The error for ids that no node has.
pub open spec fn not_found_text(missing: Seq<Seq<char>>) -> Seq<char> {
    "Error: Node(s) not found: "@ + join_with(missing, ", "@)
}

/// The error for ids that no node has.
pub fn nodes_not_found_message(missing: &Vec<String>) -> (r: String)
    ensures
        r@ == not_found_text(texts(missing@)),
{
    let mut r = String::from_str("Error: Node(s) not found: ");
    let joined = join_strings(missing, ", ");
    r.append(joined.as_str());
    r
}

/// The ids of the targeted nodes, in configuration order.
pub open spec fn selected_ids(nodes: Seq<NodeConfig>, target: Option<Vec<String>>) -> Seq<
    Seq<char>,
> {
    node_ids(selected_nodes(nodes, target))
}

/// The names shown for the targeted nodes: `all` when every node is
/// targeted, else the targeted ids in ascending order, joined with `,`.
pub fn get_node_names(ssh_config: &SshverConfig, target_node_ids: &Option<Vec<String>>) -> (r:
    String)
    ensures
        target_node_ids is None ==> r@ == "all"@,
        target_node_ids is Some ==> exists|sorted: Seq<Seq<char>>|
            sorts(sorted, selected_ids(ssh_config.nodes@, *target_node_ids)) && r@ == join_with(
                sorted,
                ","@,
            ),
{
    let nodes = &ssh_config.nodes;
    match target_node_ids {
        None => String::from_str("all"),
        Some(ids) => {
            let mut names: Vec<String> = Vec::new();
            let mut i: usize = 0;
            while i < nodes.len()
                invariant
                    i <= nodes.len(),
                    *target_node_ids == Some(*ids),
                    texts(names@) == selected_ids(nodes@.take(i as int), *target_node_ids),
                decreases nodes.len() - i,
            {
                proof {
                    assert(nodes@.take(i + 1).drop_last() =~= nodes@.take(i as int));
                    assert(nodes@.take(i + 1).last() == nodes@[i as int]);
                }
                let listed = id_listed_exec(ids, &nodes[i].id);
                assert(listed == node_selected(*target_node_ids, nodes@[i as int]));
                if listed {
                    let ghost old_names = names@;
                    names.push(nodes[i].id.clone());
                    proof {
                        let prev = selected_nodes(nodes@.take(i as int), *target_node_ids);
                        assert(texts(names@) =~= texts(old_names).push(nodes@[i as int].id@));
                        assert(node_ids(prev.push(nodes@[i as int])) =~= node_ids(prev).push(
                            nodes@[i as int].id@,
                        ));
                    }
                }
                i = i + 1;
            }
            assert(nodes@.take(nodes.len() as int) =~= nodes@);
            let sorted = sort_strings(names);
            let r = join_strings(&sorted, ",");
            assert(sorts(texts(sorted@), selected_ids(nodes@, *target_node_ids)));
            r
        },
    }
}

} // verus!
