//! What an interactive prompt offers to complete: the special forms and the
//! names bound in an environment.

use crate::env::{Environment, Scope};
use crate::text::{from_chars, str_eq, to_chars};
use vstd::prelude::*;

verus! {

/// Whether `c` ends the word that is being completed.
pub open spec fn break_char(c: char) -> bool {
    c == ' ' || c == '\t' || c == '\n'
}

/// Whether `c` ends the word that is being completed.
pub fn is_break_char(c: char) -> (r: bool)
    ensures
        r == break_char(c),
{
    c == ' ' || c == '\t' || c == '\n'
}

/// A completion: the text `cmd` is offered when the line before the word
/// being completed is `pre_cmd`.
#[derive(Debug, Clone, PartialEq, Eq, Hash)]
pub struct Command {
    cmd: String,
    pre_cmd: String,
}

/// The mathematical value of a [`Command`].
pub struct Offer {
    pub cmd: Seq<char>,
    pub pre_cmd: Seq<char>,
}

impl View for Command {
    type V = Offer;

    open spec fn view(&self) -> Offer {
        self.offer()
    }
}

impl Command {
    /// The completion as a mathematical value.
    pub closed spec fn offer(&self) -> Offer {
        Offer { cmd: self.cmd@, pre_cmd: self.pre_cmd@ }
    }

    /// The completion that offers `cmd` after `pre_cmd`.
    pub fn new(cmd: &str, pre_cmd: &str) -> (r: Self)
        ensures
            r@ == (Offer { cmd: cmd@, pre_cmd: pre_cmd@ }),
    {
        Command { cmd: cmd.to_owned(), pre_cmd: pre_cmd.to_owned() }
    }

    /// The text that is offered.
    pub fn cmd(&self) -> (r: &str)
        ensures
            r@ == self@.cmd,
    {
        self.cmd.as_str()
    }

    /// The line before the word for which the text is offered.
    pub fn pre_cmd(&self) -> (r: &str)
        ensures
            r@ == self@.pre_cmd,
    {
        self.pre_cmd.as_str()
    }
}

/// The offers of a sequence of completions.
pub open spec fn offers(s: Seq<Command>) -> Seq<Offer> {
    Seq::new(s.len(), |i: int| s[i]@)
}

/// `s` with `o` added at the end unless it is there already.
pub open spec fn with_offer(s: Seq<Offer>, o: Offer) -> Seq<Offer> {
    if s.contains(o) {
        s
    } else {
        s.push(o)
    }
}

/// The offers for one keyword: the keyword at the start of a line, and
/// nothing after the keyword.
pub open spec fn with_keyword(s: Seq<Offer>, k: Seq<char>) -> Seq<Offer> {
    with_offer(
        with_offer(s, Offer { cmd: k, pre_cmd: Seq::empty() }),
        Offer { cmd: Seq::empty(), pre_cmd: k },
    )
}

/// The offers for one binding with the printed key `path` and the target
/// `name`: each after the other, and each at the start of a line.
pub open spec fn with_binding(s: Seq<Offer>, path: Seq<char>, name: Seq<char>) -> Seq<Offer> {
    with_offer(
        with_offer(
            with_offer(
                with_offer(s, Offer { cmd: path, pre_cmd: name }),
                Offer { cmd: name, pre_cmd: path },
            ),
            Offer { cmd: name, pre_cmd: Seq::empty() },
        ),
        Offer { cmd: path, pre_cmd: Seq::empty() },
    )
}

/// The keywords that are offered, in the order in which they are added.
pub open spec fn offered_keywords() -> Seq<Seq<char>> {
    seq![
        "define"@,
        "define/in-namespace"@,
        "namespace/symbol"@,
        "namespace/as-list"@,
        "quote"@,
        "eval-file"@,
        "require"@,
        "deconst-fn"@,
        "if"@,
    ]
}

/// `s` with the offers for the keywords `ks[..n]`.
pub open spec fn with_keywords(s: Seq<Offer>, ks: Seq<Seq<char>>, n: int) -> Seq<Offer>
    decreases n,
{
    if n <= 0 {
        s
    } else {
        with_keyword(with_keywords(s, ks, n - 1), ks[n - 1])
    }
}

/// `s` with the offers for the first `n` bindings of `env`.
pub open spec fn with_bindings(s: Seq<Offer>, env: Scope, n: int) -> Seq<Offer>
    decreases n,
{
    if n <= 0 {
        s
    } else {
        with_binding(
            with_bindings(s, env, n - 1),
            env.bindings[n - 1].0.text(),
            env.bindings[n - 1].0.target,
        )
    }
}

/// Everything that is offered in `env`: the keywords first, then the
/// bindings in the order of their keys, nothing twice.
pub open spec fn all_offers(env: Scope) -> Seq<Offer> {
    with_bindings(
        with_keywords(Seq::empty(), offered_keywords(), offered_keywords().len() as int),
        env,
        env.bindings.len() as int,
    )
}

/// Adds `c` to `set` unless it is there already.
fn offer(set: &mut Vec<Command>, c: Command)
    ensures
        offers(final(set)@) == with_offer(offers(old(set)@), c@),
{
    let ghost before = offers(set@);
    let mut i: usize = 0;
    while i < set.len()
        invariant
            i <= set.len(),
            before == offers(set@),
            forall|j: int| 0 <= j < i ==> before[j] != c@,
        decreases set.len() - i,
    {
        if str_eq(set[i].cmd.as_str(), c.cmd.as_str()) && str_eq(
            set[i].pre_cmd.as_str(),
            c.pre_cmd.as_str(),
        ) {
            assert(before[i as int] == c@);
            return ;
        }
        i += 1;
    }
    assert(!before.contains(c@));
    set.push(c);
    assert(offers(set@) =~= before.push(c@));
}

/// The completions that are offered in `env`.
pub fn cmd_sets(env: &Environment) -> (r: Vec<Command>)
    ensures
        offers(r@) == all_offers(env@),
{
    let mut set: Vec<Command> = Vec::new();
    assert(offers(set@) =~= Seq::<Offer>::empty());
    let keywords: [&str; 9] = [
        "define",
        "define/in-namespace",
        "namespace/symbol",
        "namespace/as-list",
        "quote",
        "eval-file",
        "require",
        "deconst-fn",
        "if",
    ];
    let mut k: usize = 0;
    while k < 9
        invariant
            k <= 9,
            keywords@.len() == 9,
            forall|j: int| 0 <= j < 9 ==> (#[trigger] keywords@[j])@ == offered_keywords()[j],
            offers(set@) == with_keywords(Seq::empty(), offered_keywords(), k as int),
        decreases 9 - k,
    {
        let it = keywords[k];
        offer(&mut set, Command::new(it, ""));
        offer(&mut set, Command::new("", it));
        proof {
            reveal_strlit("");
            assert(""@ =~= Seq::<char>::empty());
        }
        k += 1;
    }
    let names = env.full_path_and_name();
    let ghost start = offers(set@);
    let mut i: usize = 0;
    while i < names.len()
        invariant
            i <= names.len(),
            names.len() == env@.bindings.len(),
            forall|j: int|
                0 <= j < names.len() ==> (#[trigger] names[j]).0@ == env@.bindings[j].0.text()
                    && names[j].1@ == env@.bindings[j].0.target,
            offers(set@) == with_bindings(start, env@, i as int),
        decreases names.len() - i,
    {
        let path = names[i].0.as_str();
        let it = names[i].1;
        proof {
            reveal_strlit("");
            assert(""@ =~= Seq::<char>::empty());
        }
        offer(&mut set, Command::new(path, it));
        offer(&mut set, Command::new(it, path));
        offer(&mut set, Command::new(it, ""));
        offer(&mut set, Command::new(path, ""));
        i += 1;
    }
    set
}

/// `w` without the `(` characters at its start.
pub open spec fn strip_parens(w: Seq<char>) -> Seq<char>
    decreases w.len(),
{
    if w.len() > 0 && w[0] == '(' {
        strip_parens(w.skip(1))
    } else {
        w
    }
}

/// Whether `cmd` starts with `word`.
pub open spec fn starts_with(cmd: Seq<char>, word: Seq<char>) -> bool {
    word.len() <= cmd.len() && cmd.take(word.len() as int) == word
}

/// What is shown and what is put into the line for the offer `o`, if it is
/// offered after `pre_cmd` for a text that starts with `word`.
pub open spec fn candidate(o: Offer, pre_cmd: Seq<char>, word: Seq<char>) -> Option<
    (Seq<char>, Seq<char>),
> {
    let bare = strip_parens(word);
    if starts_with(o.cmd, bare) && pre_cmd == o.pre_cmd {
        Some(
            (
                o.cmd,
                if word.len() > 0 && word[0] == '(' {
                    seq!['('] + o.cmd
                } else {
                    o.cmd
                },
            ),
        )
    } else {
        None
    }
}

/// The candidates of the offers `s`, in their order.
pub open spec fn candidates(s: Seq<Offer>, pre_cmd: Seq<char>, word: Seq<char>) -> Seq<
    (Seq<char>, Seq<char>),
>
    decreases s.len(),
{
    if s.len() == 0 {
        Seq::empty()
    } else {
        match candidate(s.last(), pre_cmd, word) {
            Some(c) => candidates(s.drop_last(), pre_cmd, word).push(c),
            None => candidates(s.drop_last(), pre_cmd, word),
        }
    }
}

/// The texts shown and inserted, as character sequences.
pub open spec fn pairs_view(s: Seq<(String, String)>) -> Seq<(Seq<char>, Seq<char>)> {
    Seq::new(s.len(), |i: int| (s[i].0@, s[i].1@))
}

/// The completions on offer.
pub struct CommandCompleter {
    pub cmds: Vec<Command>,
}

impl CommandCompleter {
    /// The completions for the word `word`, which stands after `pre_cmd` in
    /// the line: every offer for that place whose text starts with `word`
    /// less the `(` at its start. Each is given as the text to show and the
    /// text to put into the line, which starts with `(` if `word` does.
    pub fn find_matches(&self, pre_cmd: &str, word: &str) -> (r: Vec<(String, String)>)
        ensures
            pairs_view(r@) == candidates(offers(self.cmds@), pre_cmd@, word@),
    {
        let chars = to_chars(word);
        let mut start: usize = 0;
        assert(chars@.skip(0) =~= chars@);
        while start < chars.len() && chars[start] == '('
            invariant
                start <= chars.len(),
                strip_parens(chars@) == strip_parens(chars@.skip(start as int)),
            decreases chars.len() - start,
        {
            assert(chars@.skip(start as int).skip(1) =~= chars@.skip(start + 1));
            start += 1;
        }
        assert(chars@.skip(start as int) =~= chars@.subrange(start as int, chars.len() as int));
        let bare = from_chars(&chars, start, chars.len());
        let paren = chars.len() > 0 && chars[0] == '(';
        let n = bare.as_str().unicode_len();
        let mut out: Vec<(String, String)> = Vec::new();
        let mut i: usize = 0;
        let ghost all = offers(self.cmds@);
        assert(all.take(0) =~= Seq::<Offer>::empty());
        assert(pairs_view(out@) =~= Seq::empty());
        while i < self.cmds.len()
            invariant
                i <= self.cmds.len(),
                all == offers(self.cmds@),
                chars@ == word@,
                bare@ == strip_parens(word@),
                n == bare@.len(),
                paren == (word@.len() > 0 && word@[0] == '('),
                pairs_view(out@) == candidates(all.take(i as int), pre_cmd@, word@),
            decreases self.cmds.len() - i,
        {
            let hint = &self.cmds[i];
            let ghost before = pairs_view(out@);
            proof {
                assert(all.take(i + 1).drop_last() =~= all.take(i as int));
                assert(all.take(i + 1).last() == hint@);
            }
            let cmd = to_chars(hint.cmd.as_str());
            let fits = if n <= cmd.len() {
                let head = from_chars(&cmd, 0, n);
                assert(cmd@.subrange(0, n as int) =~= cmd@.take(n as int));
                str_eq(head.as_str(), bare.as_str())
            } else {
                false
            };
            if fits && str_eq(pre_cmd, hint.pre_cmd.as_str()) {
                let replacement = if paren {
                    proof {
                        reveal_strlit("(");
                        assert("("@ =~= seq!['(']);
                    }
                    "(".to_owned().concat(hint.cmd.as_str())
                } else {
                    hint.cmd.clone()
                };
                out.push((hint.cmd.clone(), replacement));
                assert(pairs_view(out@) =~= before.push(
                    candidate(hint@, pre_cmd@, word@).unwrap(),
                ));
            }
            i += 1;
        }
        assert(all.take(self.cmds.len() as int) =~= all);
        out
    }
}

} // verus!
