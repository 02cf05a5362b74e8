//! A minimal summary of a markdown todo list, designed for use in a status
//! bar.
//!
//! A todo file is a sequence of lines: a line whose trimmed form starts with
//! `#` opens a new todo list named by the rest of the line; a trimmed line
//! starting with `- [x]` records a completed item of the open list; any other
//! trimmed line starting with `-` records an item still to do.  Everything
//! else is ignored.

use vstd::prelude::*;

use crate::strings::{
    chars_from, chars_of, has_prefix, range_starts_with, spec_digits, spec_split_lines,
    split_lines, string_of_chars, string_of_range, trimmed, trimmed_chars, usize_to_string,
};

verus! {

/// Status-bar output: the visible text plus a tooltip shown on hover.
pub struct Output {
    pub text: String,
    pub tooltip: String,
}

/// One named todo list and its items.
pub struct Todo {
    pub name: String,
    pub items: Vec<Item>,
}

/// One entry of a todo list.
pub struct Item {
    pub name: String,
    pub completed: bool,
}

/// Mathematical model of an [`Item`].
pub struct SpecItem {
    pub name: Seq<char>,
    pub completed: bool,
}

/// Mathematical model of a [`Todo`].
pub struct SpecTodo {
    pub name: Seq<char>,
    pub items: Seq<SpecItem>,
}

impl View for Item {
    type V = SpecItem;

    open spec fn view(&self) -> SpecItem {
        SpecItem { name: self.name@, completed: self.completed }
    }
}

impl View for Todo {
    type V = SpecTodo;

    open spec fn view(&self) -> SpecTodo {
        SpecTodo { name: self.name@, items: self.items@.map_values(|it: Item| it@) }
    }
}

impl Todo {
    /// A new, empty todo list with the given name.
    pub fn new(name: String) -> (r: Self)
        ensures
            r@ == (SpecTodo { name: name@, items: Seq::<SpecItem>::empty() }),
    {
        let items: Vec<Item> = Vec::new();
        proof {
            assert(items@.map_values(|it: Item| it@) =~= Seq::<SpecItem>::empty());
        }
        Self { name, items }
    }
}

impl Item {
    /// A new item with the given name and completion state.
    pub fn new(name: String, completed: bool) -> (r: Self)
        ensures
            r@ == (SpecItem { name: name@, completed }),
    {
        Self { name, completed }
    }
}

/// The i3bar flavor of the summary shows nothing at all.
pub fn todos_as_i3bar_output(_todos: Vec<Todo>) -> (r: Output)
    ensures
        r.text@ == Seq::<char>::empty(),
        r.tooltip@ == Seq::<char>::empty(),
{
    let text = String::new();

    Output { text, tooltip: String::new() }
}

/// The status-bar text of the waybar flavor: a cheer when nothing is left to
/// do, otherwise the number of todo lists.
pub open spec fn spec_waybar_text(todos: Seq<SpecTodo>) -> Seq<char> {
    if todos.len() == 0 {
        "Neat :3"@
    } else {
        spec_digits(todos.len() as nat) + " todos"@
    }
}

/// One item's line in the tooltip: a line break, a completion icon, and the
/// item's name.
pub open spec fn spec_item_entry(it: SpecItem) -> Seq<char> {
    seq!['\r'] + (if it.completed {
        seq!['\u{e63f}']
    } else {
        seq!['\u{f1639}']
    }) + it.name
}

/// The tooltip lines of a list's items, in order.
pub open spec fn spec_items_tooltip(items: Seq<SpecItem>) -> Seq<char>
    decreases items.len(),
{
    if items.len() == 0 {
        Seq::empty()
    } else {
        spec_item_entry(items[0]) + spec_items_tooltip(items.drop_first())
    }
}

/// One todo list's block in the tooltip: a list icon, the list's name, its
/// items, and a blank line.
pub open spec fn spec_todo_entry(td: SpecTodo) -> Seq<char> {
    "\u{f03a} "@ + td.name + spec_items_tooltip(td.items) + seq!['\r', '\r']
}

/// The whole tooltip: the blocks of all todo lists, in order.
pub open spec fn spec_waybar_tooltip(todos: Seq<SpecTodo>) -> Seq<char>
    decreases todos.len(),
{
    if todos.len() == 0 {
        Seq::empty()
    } else {
        spec_todo_entry(todos[0]) + spec_waybar_tooltip(todos.drop_first())
    }
}

/// The waybar flavor of the summary: a short count as the visible text and
/// the full listing as the tooltip.
pub fn todos_as_waybar_output(todos: Vec<Todo>) -> (r: Output)
    ensures
        r.text@ == spec_waybar_text(todos@.map_values(|td: Todo| td@)),
        r.tooltip@ == spec_waybar_tooltip(todos@.map_values(|td: Todo| td@)),
{
    let ghost tv = todos@.map_values(|td: Todo| td@);
    let todo_count = todos.len();

    let text = if todo_count == 0 {
        let text: Vec<char> = chars_of("Neat :3");
        string_of_chars(&text)
    } else {
        let mut text: Vec<char> = chars_of(usize_to_string(todo_count).as_str());
        let mut unit = chars_of(" todos");
        text.append(&mut unit);
        string_of_chars(&text)
    };

    let mut buf: Vec<char> = Vec::new();
    let mut i: usize = 0;
    let n = todos.len();
    proof {
        assert(tv.skip(0) =~= tv);
        assert(Seq::<char>::empty() + spec_waybar_tooltip(tv) =~= spec_waybar_tooltip(tv));
    }
    while i < n
        invariant
            i <= n,
            n == todos@.len(),
            tv == todos@.map_values(|td: Todo| td@),
            spec_waybar_tooltip(tv) == buf@ + spec_waybar_tooltip(tv.skip(i as int)),
        decreases n - i,
    {
        let ghost buf0 = buf@;
        let ghost td = tv[i as int];
        proof {
            assert(td == todos@[i as int]@);
            assert(tv.skip(i as int)[0] == td);
            assert(tv.skip(i as int).drop_first() =~= tv.skip(i + 1));
        }
        let mut head = chars_of("\u{f03a} ");
        buf.append(&mut head);
        let mut name_chars = chars_of(todos[i].name.as_str());
        buf.append(&mut name_chars);
        let ghost mid = buf@;
        proof {
            assert(mid =~= buf0 + "\u{f03a} "@ + td.name);
            assert(td.items =~= todos@[i as int].items@.map_values(|it: Item| it@));
            assert(mid.skip(mid.len() as int) =~= Seq::<char>::empty());
            assert(td.items.skip(0) =~= td.items);
            assert(Seq::<char>::empty() + spec_items_tooltip(td.items) =~= spec_items_tooltip(
                td.items,
            ));
        }
        let item_count = todos[i].items.len();
        let mut j: usize = 0;
        while j < item_count
            invariant
                j <= item_count,
                i < todos@.len(),
                item_count == todos@[i as int].items@.len(),
                td.items == todos@[i as int].items@.map_values(|it: Item| it@),
                buf@.len() >= mid.len(),
                buf@.take(mid.len() as int) == mid,
                spec_items_tooltip(td.items) == buf@.skip(mid.len() as int) + spec_items_tooltip(
                    td.items.skip(j as int),
                ),
            decreases item_count - j,
        {
            let ghost acc = buf@.skip(mid.len() as int);
            let ghost it = td.items[j as int];
            proof {
                assert(it == todos@[i as int].items@[j as int]@);
                assert(td.items.skip(j as int)[0] == it);
                assert(td.items.skip(j as int).drop_first() =~= td.items.skip(j + 1));
            }
            buf.push('\r');
            if todos[i].items[j].completed {
                buf.push('\u{e63f}');
            } else {
                buf.push('\u{f1639}');
            }
            let mut item_name = chars_of(todos[i].items[j].name.as_str());
            buf.append(&mut item_name);
            proof {
                assert(buf@ =~= mid + (acc + spec_item_entry(it)));
                assert(buf@.take(mid.len() as int) =~= mid);
                assert(buf@.skip(mid.len() as int) =~= acc + spec_item_entry(it));
                assert((acc + spec_item_entry(it)) + spec_items_tooltip(td.items.skip(j + 1))
                    =~= acc + (spec_item_entry(it) + spec_items_tooltip(td.items.skip(j + 1))));
            }
            j = j + 1;
        }
        proof {
            assert(td.items.skip(item_count as int) =~= Seq::<SpecItem>::empty());
            assert(buf@ =~= mid + spec_items_tooltip(td.items));
        }
        buf.push('\r');
        buf.push('\r');
        proof {
            assert(buf@ =~= buf0 + spec_todo_entry(td));
            assert((buf0 + spec_todo_entry(td)) + spec_waybar_tooltip(tv.skip(i + 1)) =~= buf0 + (
            spec_todo_entry(td) + spec_waybar_tooltip(tv.skip(i + 1))));
        }
        i = i + 1;
    }
    proof {
        assert(tv.skip(n as int) =~= Seq::<SpecTodo>::empty());
        assert(buf@ + Seq::<char>::empty() =~= buf@);
    }
    let tooltip = string_of_chars(&buf);

    Output { text, tooltip }
}

/// The view of an optional, still-open todo list.
pub open spec fn opt_todo_view(t: Option<Todo>) -> Option<SpecTodo> {
    match t {
        Some(td) => Some(td@),
        None => None,
    }
}

/// How one line changes the parser state: the todo list still being read
/// (if any) and the finished lists so far.
pub open spec fn spec_parse_line(
    state: (Option<SpecTodo>, Seq<SpecTodo>),
    line: Seq<char>,
) -> (Option<SpecTodo>, Seq<SpecTodo>) {
    let t = trimmed(line);
    if has_prefix(t, "#"@) {
        // A new todo list starts; the previous one (if any) is finished.
        let finished = match state.0 {
            Some(td) => state.1.push(td),
            None => state.1,
        };
        (Some(SpecTodo { name: trimmed(t.skip(1)), items: Seq::empty() }), finished)
    } else {
        match state.0 {
            None => state,
            Some(td) => {
                if has_prefix(t, "- [x]"@) {
                    (
                        Some(
                            SpecTodo {
                                name: td.name,
                                items: td.items.push(SpecItem { name: t.skip(5), completed: true }),
                            },
                        ),
                        state.1,
                    )
                } else if has_prefix(t, "-"@) {
                    let name = if has_prefix(t, "- [ ]"@) {
                        t.skip(5)
                    } else if has_prefix(t, "- []"@) {
                        t.skip(4)
                    } else {
                        t.skip(1)
                    };
                    (
                        Some(
                            SpecTodo {
                                name: td.name,
                                items: td.items.push(SpecItem { name, completed: false }),
                            },
                        ),
                        state.1,
                    )
                } else {
                    state
                }
            },
        }
    }
}

/// The parser state after reading all of `lines`.
pub open spec fn spec_parse_lines(
    state: (Option<SpecTodo>, Seq<SpecTodo>),
    lines: Seq<Seq<char>>,
) -> (Option<SpecTodo>, Seq<SpecTodo>)
    decreases lines.len(),
{
    if lines.len() == 0 {
        state
    } else {
        spec_parse_lines(spec_parse_line(state, lines[0]), lines.drop_first())
    }
}

/// The todo lists described by a whole file: parse every line, then close
/// the list still open at the end.
pub open spec fn spec_todos_of(content: Seq<char>) -> Seq<SpecTodo> {
    let parsed = spec_parse_lines(
        (Option::<SpecTodo>::None, Seq::<SpecTodo>::empty()),
        spec_split_lines(content),
    );
    match parsed.0 {
        Some(td) => parsed.1.push(td),
        None => parsed.1,
    }
}

/// Go through all lines of a todo text and extract information from it:
/// every heading opens a todo list, and every item line below a heading is
/// recorded with its completion state.
pub fn handle_todo_items(content: String) -> (r: Vec<Todo>)
    ensures
        r@.map_values(|td: Todo| td@) == spec_todos_of(content@),
{
    let chars = chars_of(content.as_str());
    let lines = split_lines(&chars);
    let ghost all_lines = lines@.map_values(|l: Vec<char>| l@);

    let mut todos: Vec<Todo> = Vec::new();
    let mut todo: Option<Todo> = None;
    let ghost init = (Option::<SpecTodo>::None, Seq::<SpecTodo>::empty());
    let mut i: usize = 0;
    proof {
        assert(all_lines.skip(0) =~= all_lines);
        assert(todos@.map_values(|td: Todo| td@) =~= Seq::<SpecTodo>::empty());
    }
    let n = lines.len();
    while i < n
        invariant
            i <= n,
            n == lines@.len(),
            all_lines == lines@.map_values(|l: Vec<char>| l@),
            init == (Option::<SpecTodo>::None, Seq::<SpecTodo>::empty()),
            spec_parse_lines(init, all_lines) == spec_parse_lines(
                (opt_todo_view(todo), todos@.map_values(|td: Todo| td@)),
                all_lines.skip(i as int),
            ),
        decreases n - i,
    {
        let ghost st0 = (opt_todo_view(todo), todos@.map_values(|td: Todo| td@));
        let ghost lv = all_lines[i as int];
        let line = &lines[i];
        proof {
            assert(lv == line@);
            assert(all_lines.skip(i as int)[0] == lv);
            assert(all_lines.skip(i as int).drop_first() =~= all_lines.skip(i + 1));
        }
        let t = trimmed_chars(line);
        proof {
            assert(t@.skip(0) =~= t@);
        }
        if range_starts_with(&t, 0, "#") {
            proof {
                reveal_strlit("#");
            }
            // We found a new todo.  If we already have one, save it to the
            // list before starting a new one.
            let ghost finished0 = todos@.map_values(|td: Todo| td@);
            match todo {
                Some(td) => {
                    let ghost tdv = td@;
                    todos.push(td);
                    proof {
                        assert(todos@.map_values(|td2: Todo| td2@) =~= finished0.push(tdv));
                    }
                },
                None => {},
            }
            let after_hash = chars_from(&t, 1);
            let name_chars = trimmed_chars(&after_hash);
            let name = string_of_chars(&name_chars);
            todo = Some(Todo::new(name));
            proof {
                assert(name@ == trimmed(t@.skip(1)));
                assert((opt_todo_view(todo), todos@.map_values(|td: Todo| td@))
                    == spec_parse_line(st0, lv));
            }
        } else {
            match &mut todo {
                None => {},
                Some(td) => {
                    if range_starts_with(&t, 0, "- [x]") {
                        proof {
                            reveal_strlit("- [x]");
                        }
                        let name = string_of_range(&t, 5, t.len());
                        proof {
                            assert(name@ =~= t@.skip(5));
                        }
                        let ghost items0 = td.items@.map_values(|it: Item| it@);
                        let item = Item::new(name, true);
                        let ghost iv = item@;
                        td.items.push(item);
                        proof {
                            assert(td.items@.map_values(|it: Item| it@) =~= items0.push(iv));
                        }
                    } else if range_starts_with(&t, 0, "-") {
                        proof {
                            reveal_strlit("-");
                        }
                        let name = if range_starts_with(&t, 0, "- [ ]") {
                            proof {
                                reveal_strlit("- [ ]");
                            }
                            let name = string_of_range(&t, 5, t.len());
                            proof {
                                assert(name@ =~= t@.skip(5));
                            }
                            name
                        } else if range_starts_with(&t, 0, "- []") {
                            proof {
                                reveal_strlit("- []");
                            }
                            let name = string_of_range(&t, 4, t.len());
                            proof {
                                assert(name@ =~= t@.skip(4));
                            }
                            name
                        } else {
                            let name = string_of_range(&t, 1, t.len());
                            proof {
                                assert(name@ =~= t@.skip(1));
                            }
                            name
                        };
                        let ghost items0 = td.items@.map_values(|it: Item| it@);
                        let item = Item::new(name, false);
                        let ghost iv = item@;
                        td.items.push(item);
                        proof {
                            assert(td.items@.map_values(|it: Item| it@) =~= items0.push(iv));
                        }
                    }
                },
            }
            proof {
                assert((opt_todo_view(todo), todos@.map_values(|td: Todo| td@))
                    == spec_parse_line(st0, lv));
            }
        }
        i = i + 1;
    }
    proof {
        assert(all_lines.skip(n as int) =~= Seq::<Seq<char>>::empty());
    }
    let ghost finished = todos@.map_values(|td: Todo| td@);
    match todo {
        Some(td) => {
            let ghost tdv = td@;
            todos.push(td);
            proof {
                assert(todos@.map_values(|td2: Todo| td2@) =~= finished.push(tdv));
            }
        },
        None => {},
    }
    todos
}

} // verus!
