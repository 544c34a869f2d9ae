//! The local inputs: the export list that maps output names to variable
//! names, the output-values document, and the variables built from both.
use vstd::prelude::*;
use crate::codec::parse_json_text;
use crate::json::parse_json;
use crate::text::{char_seqs, chars_of, split_chars, split_on, string_from, trim, trim_chars};
use crate::value::{field, JsonValue, Value};

verus! {

broadcast use {vstd::std_specs::vec::group_vec_axioms, vstd::seq::group_seq_axioms};

/// One line of the export list: `source,destination[,description]`.
#[derive(Debug, PartialEq, Eq)]
pub struct ExportEntry {
    pub source: String,
    pub destination: String,
    pub description: Option<String>,
}

pub struct EntryModel {
    pub source: Seq<char>,
    pub destination: Seq<char>,
    pub description: Option<Seq<char>>,
}

impl ExportEntry {
    pub open spec fn model(&self) -> EntryModel {
        EntryModel {
            source: self.source@,
            destination: self.destination@,
            description: match self.description {
                Some(d) => Some(d@),
                None => None,
            },
        }
    }
}

pub open spec fn entry_models(es: Seq<ExportEntry>) -> Seq<EntryModel> {
    Seq::new(es.len(), |k: int| es[k].model())
}

/// A local input that cannot be used; nothing has been sent when it is reported.
#[derive(Debug, PartialEq, Eq)]
pub enum InputError {
    /// The export list has no entry.
    NoEntries,
    /// An entry without a destination name.
    MalformedEntry(String),
    /// Two entries read the same output.
    DuplicateSource(String),
    /// Two entries write the same variable.
    DuplicateDestination(String),
    /// The output-values document is not a JSON object.
    MalformedOutputs,
    /// An entry names an output that the document does not have.
    UnknownOutput(String),
}

pub enum InputFault {
    NoEntries,
    MalformedEntry(Seq<char>),
    DuplicateSource(Seq<char>),
    DuplicateDestination(Seq<char>),
    MalformedOutputs,
    UnknownOutput(Seq<char>),
}

impl InputError {
    pub open spec fn model(&self) -> InputFault {
        match self {
            InputError::NoEntries => InputFault::NoEntries,
            InputError::MalformedEntry(t) => InputFault::MalformedEntry(t@),
            InputError::DuplicateSource(t) => InputFault::DuplicateSource(t@),
            InputError::DuplicateDestination(t) => InputFault::DuplicateDestination(t@),
            InputError::MalformedOutputs => InputFault::MalformedOutputs,
            InputError::UnknownOutput(t) => InputFault::UnknownOutput(t@),
        }
    }
}

/// A line that holds an entry: not blank and not a `#` comment.
pub open spec fn is_entry_line(l: Seq<char>) -> bool {
    l.len() > 0 && l[0] != '#'
}

/// The trimmed entry lines among `lines`, in order.
pub open spec fn entry_lines(lines: Seq<Seq<char>>) -> Seq<Seq<char>>
    decreases lines.len(),
{
    if lines.len() == 0 {
        Seq::empty()
    } else {
        let prev = entry_lines(lines.drop_last());
        if is_entry_line(trim(lines.last())) {
            prev.push(trim(lines.last()))
        } else {
            prev
        }
    }
}

/// The entry a line holds: its first comma-separated field is the source,
/// the second the destination, the third (if any) the description.
pub open spec fn entry_of(line: Seq<char>) -> Option<EntryModel> {
    let f = split_on(line, ',');
    if f.len() < 2 {
        None
    } else {
        Some(
            EntryModel {
                source: f[0],
                destination: f[1],
                description: if f.len() > 2 { Some(f[2]) } else { None },
            },
        )
    }
}

/// The entries of the lines, or the first line that is not one.
pub open spec fn entries_of(lines: Seq<Seq<char>>) -> Result<Seq<EntryModel>, Seq<char>>
    decreases lines.len(),
{
    if lines.len() == 0 {
        Ok(Seq::empty())
    } else {
        match entries_of(lines.drop_last()) {
            Err(l) => Err(l),
            Ok(es) => match entry_of(lines.last()) {
                Some(e) => Ok(es.push(e)),
                None => Err(lines.last()),
            },
        }
    }
}

/// The first name that repeats an earlier one.
pub open spec fn first_repeat(names: Seq<Seq<char>>) -> Option<Seq<char>>
    decreases names.len(),
{
    if names.len() == 0 {
        None
    } else {
        match first_repeat(names.drop_last()) {
            Some(n) => Some(n),
            None => if names.drop_last().contains(names.last()) {
                Some(names.last())
            } else {
                None
            },
        }
    }
}

pub open spec fn sources(es: Seq<EntryModel>) -> Seq<Seq<char>> {
    Seq::new(es.len(), |k: int| es[k].source)
}

pub open spec fn destinations(es: Seq<EntryModel>) -> Seq<Seq<char>> {
    Seq::new(es.len(), |k: int| es[k].destination)
}

/// What the export list `text` holds.
pub open spec fn mapping_outcome(text: Seq<char>) -> Result<Seq<EntryModel>, InputFault> {
    let lines = entry_lines(split_on(text, '\n'));
    if lines.len() == 0 {
        Err(InputFault::NoEntries)
    } else {
        match entries_of(lines) {
            Err(l) => Err(InputFault::MalformedEntry(l)),
            Ok(es) => match first_repeat(sources(es)) {
                Some(n) => Err(InputFault::DuplicateSource(n)),
                None => match first_repeat(destinations(es)) {
                    Some(n) => Err(InputFault::DuplicateDestination(n)),
                    None => Ok(es),
                },
            },
        }
    }
}

pub open spec fn mapping_seen(r: Result<Vec<ExportEntry>, InputError>) -> Result<Seq<EntryModel>, InputFault> {
    match r {
        Ok(v) => Ok(entry_models(v@)),
        Err(e) => Err(e.model()),
    }
}

proof fn lemma_entries_of_err(lines: Seq<Seq<char>>, n: int, l: Seq<char>)
    requires
        0 <= n <= lines.len(),
        entries_of(lines.take(n)) == Err::<Seq<EntryModel>, Seq<char>>(l),
    ensures
        entries_of(lines) == Err::<Seq<EntryModel>, Seq<char>>(l),
    decreases lines.len() - n,
{
    if n < lines.len() {
        assert(lines.take(n + 1).drop_last() =~= lines.take(n));
        lemma_entries_of_err(lines, n + 1, l);
    } else {
        assert(lines.take(n) =~= lines);
    }
}

proof fn lemma_first_repeat_some(names: Seq<Seq<char>>, n: int, x: Seq<char>)
    requires
        0 <= n <= names.len(),
        first_repeat(names.take(n)) == Some(x),
    ensures
        first_repeat(names) == Some(x),
    decreases names.len() - n,
{
    if n < names.len() {
        assert(names.take(n + 1).drop_last() =~= names.take(n));
        lemma_first_repeat_some(names, n + 1, x);
    } else {
        assert(names.take(n) =~= names);
    }
}

/// The position of the first name that repeats an earlier one.
pub(crate) fn find_repeat(names: &Vec<String>) -> (r: Option<usize>)
    ensures
        r matches Some(k) ==> k < names@.len() && first_repeat(char_strings(names@)) == Some(names@[k as int]@),
        r is None ==> first_repeat(char_strings(names@)) is None,
{
    let ghost ns = char_strings(names@);
    let mut k: usize = 0;
    while k < names.len()
        invariant
            k <= names@.len(),
            ns == char_strings(names@),
            first_repeat(ns.take(k as int)) is None,
        decreases names@.len() - k,
    {
        let mut j: usize = 0;
        while j < k
            invariant
                j <= k < names@.len(),
                ns == char_strings(names@),
                forall|m: int| 0 <= m < j ==> ns[m] != ns[k as int],
                first_repeat(ns.take(k as int)) is None,
            decreases k - j,
        {
            proof {
                assert(ns[j as int] == names@[j as int]@ && ns[k as int] == names@[k as int]@);
            }
            if names[j] == names[k] {
                proof {
                    assert(ns.take(k + 1).drop_last() =~= ns.take(k as int));
                    assert(ns.take(k + 1).last() == ns[k as int]);
                    assert(ns.take(k as int).contains(ns[k as int])) by {
                        assert(ns.take(k as int)[j as int] == ns[k as int]);
                    }
                    lemma_first_repeat_some(ns, k + 1, ns[k as int]);
                }
                return Some(k);
            }
            j = j + 1;
        }
        proof {
            assert(ns.take(k + 1).drop_last() =~= ns.take(k as int));
            assert(ns.take(k + 1).last() == ns[k as int]);
            assert(!ns.take(k as int).contains(ns[k as int]));
        }
        k = k + 1;
    }
    assert(ns.take(k as int) =~= ns);
    None
}

pub open spec fn char_strings(v: Seq<String>) -> Seq<Seq<char>> {
    Seq::new(v.len(), |k: int| v[k]@)
}

/// Reads the export list. Blank lines and lines starting with `#` are
/// skipped; surrounding whitespace of a line is ignored.
pub fn read_export_list(text: &str) -> (r: Result<Vec<ExportEntry>, InputError>)
    ensures
        mapping_seen(r) == mapping_outcome(text@),
{
    let cs = chars_of(text);
    let lines = split_chars(&cs, '\n');
    let ghost all = split_on(text@, '\n');
    let mut kept: Vec<Vec<char>> = Vec::new();
    let mut k: usize = 0;
    while k < lines.len()
        invariant
            k <= lines@.len(),
            char_seqs(lines@) == all,
            all == split_on(text@, '\n'),
            char_seqs(kept@) == entry_lines(all.take(k as int)),
        decreases lines@.len() - k,
    {
        let t = trim_chars(&lines[k]);
        proof {
            assert(all.take(k + 1).drop_last() =~= all.take(k as int));
            assert(all.take(k + 1).last() == lines@[k as int]@);
        }
        if t.len() > 0 && t[0] != '#' {
            kept.push(t);
            assert(char_seqs(kept@) =~= entry_lines(all.take(k + 1)));
        }
        k = k + 1;
    }
    assert(all.take(k as int) =~= all);
    let ghost els = char_seqs(kept@);
    if kept.len() == 0 {
        return Err(InputError::NoEntries);
    }
    let mut entries: Vec<ExportEntry> = Vec::new();
    assert(entry_models(entries@) =~= Seq::empty());
    assert(els.take(0) =~= Seq::<Seq<char>>::empty());
    let mut k: usize = 0;
    while k < kept.len()
        invariant
            k <= kept@.len(),
            els == char_seqs(kept@),
            els == entry_lines(split_on(text@, '\n')),
            els.len() > 0,
            entries_of(els.take(k as int)) == Ok::<Seq<EntryModel>, Seq<char>>(entry_models(entries@)),
        decreases kept@.len() - k,
    {
        let fields = split_chars(&kept[k], ',');
        proof {
            assert(els.take(k + 1).drop_last() =~= els.take(k as int));
            assert(els.take(k + 1).last() == kept@[k as int]@);
        }
        if fields.len() < 2 {
            proof {
                assert(entry_of(els[k as int]) is None);
                assert(entries_of(els.take(k + 1)) == Err::<Seq<EntryModel>, Seq<char>>(els[k as int]));
                lemma_entries_of_err(els, k + 1, els[k as int]);
            }
            return Err(InputError::MalformedEntry(string_from(&kept[k])));
        }
        let description = if fields.len() > 2 {
            Some(string_from(&fields[2]))
        } else {
            None
        };
        let e = ExportEntry {
            source: string_from(&fields[0]),
            destination: string_from(&fields[1]),
            description,
        };
        assert(entry_of(els[k as int]) == Some(e.model()));
        let ghost before = entries@;
        entries.push(e);
        assert(entries@ == before.push(e));
        assert(entry_models(entries@) =~= entry_models(before).push(e.model()));
        k = k + 1;
    }
    assert(els.take(k as int) =~= els);
    let ghost es = entry_models(entries@);
    assert(entries_of(entry_lines(split_on(text@, '\n'))) == Ok::<Seq<EntryModel>, Seq<char>>(es));
    let mut srcs: Vec<String> = Vec::new();
    let mut dsts: Vec<String> = Vec::new();
    let mut k: usize = 0;
    while k < entries.len()
        invariant
            k <= entries@.len(),
            es == entry_models(entries@),
            char_strings(srcs@) == sources(es).take(k as int),
            char_strings(dsts@) == destinations(es).take(k as int),
        decreases entries@.len() - k,
    {
        let src = entries[k].source.clone();
        let dst = entries[k].destination.clone();
        let ghost (sb, db) = (srcs@, dsts@);
        srcs.push(src);
        dsts.push(dst);
        assert(srcs@ == sb.push(src) && dsts@ == db.push(dst));
        assert(char_strings(srcs@) =~= char_strings(sb).push(src@));
        assert(char_strings(dsts@) =~= char_strings(db).push(dst@));
        assert(char_strings(srcs@) =~= sources(es).take(k + 1));
        assert(char_strings(dsts@) =~= destinations(es).take(k + 1));
        k = k + 1;
    }
    assert(sources(es).take(k as int) =~= sources(es));
    assert(destinations(es).take(k as int) =~= destinations(es));
    match find_repeat(&srcs) {
        Some(i) => {
            return Err(InputError::DuplicateSource(srcs[i].clone()));
        },
        None => {},
    }
    match find_repeat(&dsts) {
        Some(i) => {
            return Err(InputError::DuplicateDestination(dsts[i].clone()));
        },
        None => {},
    }
    Ok(entries)
}

proof fn lemma_repeat_found(names: Seq<Seq<char>>, i: int, j: int)
    requires
        0 <= i < j < names.len(),
        names[i] == names[j],
    ensures
        first_repeat(names) is Some,
    decreases names.len(),
{
    let prev = names.drop_last();
    if j < names.len() - 1 {
        lemma_repeat_found(prev, i, j);
    } else {
        assert(prev[i] == names.last());
        assert(prev.contains(names.last()));
    }
}

/// An export list in which two entries write the same variable is rejected,
/// and no variable is built from it, whatever the output values.
pub proof fn lemma_duplicate_destination_rejected(text: Seq<char>, es: Seq<EntryModel>, i: int, j: int)
    requires
        entries_of(entry_lines(split_on(text, '\n'))) == Ok::<Seq<EntryModel>, Seq<char>>(es),
        0 <= i < j < es.len(),
        es[i].destination == es[j].destination,
    ensures
        mapping_outcome(text) is Err,
        forall|outputs: Seq<char>| #[trigger] export_outcome(text, outputs) is Err,
{
    let lines = entry_lines(split_on(text, '\n'));
    if lines.len() > 0 && first_repeat(sources(es)) is None {
        lemma_repeat_found(destinations(es), i, j);
    }
}

// ---------------------------------------------------------------- outputs

/// One output of the output-values document.
#[derive(Debug, PartialEq, Eq)]
pub struct OutputValue {
    name: String,
    value: Value,
}

pub struct OutputModel {
    pub name: Seq<char>,
    pub value: JsonValue,
}

impl OutputValue {
    pub closed spec fn model(&self) -> OutputModel {
        OutputModel { name: self.name@, value: self.value.model() }
    }

    pub fn get_name(&self) -> (r: &str)
        ensures
            r@ == self.model().name,
    {
        self.name.as_str()
    }

    pub fn get_value(&self) -> (r: &Value)
        ensures
            r.model() == self.model().value,
    {
        &self.value
    }
}

pub open spec fn output_models(os: Seq<OutputValue>) -> Seq<OutputModel> {
    Seq::new(os.len(), |k: int| os[k].model())
}

/// An output is exported unless it is marked `"sensitive": true`.
pub open spec fn is_exported(entry: JsonValue) -> bool {
    field(Some(entry), "sensitive"@) != Some(JsonValue::Bool(true))
}

/// The `value` of an output; `null` when it has none.
pub open spec fn output_value(entry: JsonValue) -> JsonValue {
    match field(Some(entry), "value"@) {
        Some(v) => v,
        None => JsonValue::Null,
    }
}

pub open spec fn outputs_of(ms: Seq<(Seq<char>, JsonValue)>) -> Seq<OutputModel>
    decreases ms.len(),
{
    if ms.len() == 0 {
        Seq::empty()
    } else {
        let prev = outputs_of(ms.drop_last());
        if is_exported(ms.last().1) {
            prev.push(OutputModel { name: ms.last().0, value: output_value(ms.last().1) })
        } else {
            prev
        }
    }
}

/// `a` comes before `b` in the order of their characters.
pub open spec fn name_lt(a: Seq<char>, b: Seq<char>) -> bool
    decreases a.len(),
{
    if a.len() == 0 {
        b.len() > 0
    } else if b.len() == 0 {
        false
    } else if a[0] != b[0] {
        a[0] < b[0]
    } else {
        name_lt(a.drop_first(), b.drop_first())
    }
}

/// Puts member `m` into members ordered by name; it replaces a member of
/// the same name.
pub open spec fn insert_member(ms: Seq<(Seq<char>, JsonValue)>, m: (Seq<char>, JsonValue)) -> Seq<
    (Seq<char>, JsonValue),
>
    decreases ms.len(),
{
    if ms.len() == 0 {
        seq![m]
    } else if ms[0].0 == m.0 {
        seq![m] + ms.drop_first()
    } else if name_lt(m.0, ms[0].0) {
        seq![m] + ms
    } else {
        seq![ms[0]] + insert_member(ms.drop_first(), m)
    }
}

/// The members ordered by name, one per name: a later member replaces an
/// earlier one of the same name.
pub open spec fn by_name(ms: Seq<(Seq<char>, JsonValue)>) -> Seq<(Seq<char>, JsonValue)>
    decreases ms.len(),
{
    if ms.len() == 0 {
        Seq::empty()
    } else {
        insert_member(by_name(ms.drop_last()), ms.last())
    }
}

/// What the output-values document `text` holds: its outputs ordered by name.
pub open spec fn outputs_outcome(text: Seq<char>) -> Result<Seq<OutputModel>, InputFault> {
    match parse_json(text) {
        Some(JsonValue::Object(ms)) => Ok(outputs_of(by_name(ms))),
        _ => Err(InputFault::MalformedOutputs),
    }
}

/// Whether `a` comes before `b`.
fn name_before(a: &str, b: &str) -> (r: bool)
    ensures
        r == name_lt(a@, b@),
{
    let x = chars_of(a);
    let y = chars_of(b);
    let mut i: usize = 0;
    assert(x@.skip(0) =~= x@ && y@.skip(0) =~= y@);
    loop
        invariant
            x@ == a@,
            y@ == b@,
            i <= x@.len(),
            i <= y@.len(),
            name_lt(a@, b@) == name_lt(x@.skip(i as int), y@.skip(i as int)),
        decreases x@.len() - i,
    {
        if i == x.len() {
            return i < y.len();
        }
        if i == y.len() {
            return false;
        }
        assert(x@.skip(i as int)[0] == x@[i as int] && y@.skip(i as int)[0] == y@[i as int]);
        if x[i] != y[i] {
            return x[i] < y[i];
        }
        assert(x@.skip(i as int).drop_first() =~= x@.skip(i + 1));
        assert(y@.skip(i as int).drop_first() =~= y@.skip(i + 1));
        i = i + 1;
    }
}

/// The members picked by `idx`, in its order.
pub open spec fn picked(ms: Seq<(Seq<char>, JsonValue)>, idx: Seq<usize>) -> Seq<(Seq<char>, JsonValue)> {
    Seq::new(idx.len(), |k: int| ms[idx[k] as int])
}

proof fn lemma_insert_passes(s: Seq<(Seq<char>, JsonValue)>, m: (Seq<char>, JsonValue), j: int)
    requires
        0 <= j < s.len(),
        s[j].0 != m.0,
        !name_lt(m.0, s[j].0),
        insert_member(s, m) == s.take(j) + insert_member(s.skip(j), m),
    ensures
        insert_member(s, m) == s.take(j + 1) + insert_member(s.skip(j + 1), m),
{
    assert(s.skip(j)[0] == s[j]);
    assert(s.skip(j).drop_first() =~= s.skip(j + 1));
    assert(s.take(j) + (seq![s[j]] + insert_member(s.skip(j + 1), m)) =~= s.take(j + 1) + insert_member(
        s.skip(j + 1),
        m,
    ));
}

/// Positions of the members of `members` ordered by name, one per name,
/// the later member of a name winning.
fn order_by_name(members: &Vec<(String, Value)>) -> (r: Vec<usize>)
    ensures
        forall|k: int| 0 <= k < r@.len() ==> (#[trigger] r@[k]) < members@.len(),
        picked(crate::codec::member_models(members@), r@) == by_name(
            crate::codec::member_models(members@),
        ),
{
    let ghost ms = crate::codec::member_models(members@);
    let mut order: Vec<usize> = Vec::new();
    assert(picked(ms, order@) =~= by_name(ms.take(0)));
    let mut k: usize = 0;
    while k < members.len()
        invariant
            k <= members@.len(),
            ms == crate::codec::member_models(members@),
            forall|q: int| 0 <= q < order@.len() ==> (#[trigger] order@[q]) < members@.len(),
            picked(ms, order@) == by_name(ms.take(k as int)),
        decreases members@.len() - k,
    {
        let ghost s = picked(ms, order@);
        let ghost m = ms[k as int];
        proof {
            assert(ms.take(k + 1).drop_last() =~= ms.take(k as int));
            assert(ms.take(k + 1).last() == m);
            assert(s.take(0) + s.skip(0) =~= s);
        }
        let name = &members[k].0;
        let mut j: usize = 0;
        while j < order.len() && !crate::text::same_text(members[order[j]].0.as_str(), name.as_str())
            && !name_before(name.as_str(), members[order[j]].0.as_str())
            invariant
                j <= order@.len(),
                k < members@.len(),
                ms == crate::codec::member_models(members@),
                s == picked(ms, order@),
                m == ms[k as int],
                m.0 == name@,
                forall|q: int| 0 <= q < order@.len() ==> (#[trigger] order@[q]) < members@.len(),
                insert_member(s, m) == s.take(j as int) + insert_member(s.skip(j as int), m),
            decreases order@.len() - j,
        {
            proof {
                assert(s[j as int] == ms[order@[j as int] as int]);
                lemma_insert_passes(s, m, j as int);
            }
            j = j + 1;
        }
        let ghost before = order@;
        if j == order.len() {
            order.push(k);
            proof {
                assert(s.skip(j as int) =~= Seq::<(Seq<char>, JsonValue)>::empty());
                assert(picked(ms, order@) =~= s.take(j as int) + seq![m]);
            }
        } else if crate::text::same_text(members[order[j]].0.as_str(), name.as_str()) {
            proof {
                assert(s[j as int] == ms[order@[j as int] as int]);
                assert(s.skip(j as int)[0] == s[j as int]);
                assert(s.skip(j as int).drop_first() =~= s.skip(j + 1));
            }
            order.remove(j);
            order.insert(j, k);
            proof {
                assert(picked(ms, order@) =~= s.take(j as int) + (seq![m] + s.skip(j + 1)));
            }
        } else {
            proof {
                assert(s[j as int] == ms[order@[j as int] as int]);
                assert(s.skip(j as int)[0] == s[j as int]);
            }
            order.insert(j, k);
            proof {
                assert(picked(ms, order@) =~= s.take(j as int) + (seq![m] + s.skip(j as int)));
            }
        }
        k = k + 1;
    }
    assert(ms.take(k as int) =~= ms);
    order
}

pub open spec fn outputs_seen(r: Result<Vec<OutputValue>, InputError>) -> Result<Seq<OutputModel>, InputFault> {
    match r {
        Ok(v) => Ok(output_models(v@)),
        Err(e) => Err(e.model()),
    }
}

/// Reads the document written by `terraform output --json`: the outputs
/// ordered by name (of two outputs with one name, the later counts), those
/// marked as sensitive left out.
pub fn get_outputs(text: &str) -> (r: Result<Vec<OutputValue>, InputError>)
    ensures
        outputs_seen(r) == outputs_outcome(text@),
{
    let doc = match parse_json_text(text) {
        Some(d) => d,
        None => {
            return Err(InputError::MalformedOutputs);
        },
    };
    let members = match &doc {
        Value::Object(members) => members,
        _ => {
            return Err(InputError::MalformedOutputs);
        },
    };
    proof {
        crate::codec::lemma_object_model(*members);
    }
    let order = order_by_name(members);
    let ghost ms = picked(crate::codec::member_models(members@), order@);
    let mut result: Vec<OutputValue> = Vec::new();
    assert(output_models(result@) =~= Seq::empty());
    let mut k: usize = 0;
    while k < order.len()
        invariant
            k <= order@.len(),
            ms == picked(crate::codec::member_models(members@), order@),
            forall|q: int| 0 <= q < order@.len() ==> (#[trigger] order@[q]) < members@.len(),
            output_models(result@) == outputs_of(ms.take(k as int)),
        decreases order@.len() - k,
    {
        let i = order[k];
        let entry = &members[i].1;
        proof {
            assert(ms.take(k + 1).drop_last() =~= ms.take(k as int));
            assert(ms.take(k + 1).last() == (members@[i as int].0@, entry.model()));
        }
        let exported = match entry.get("sensitive") {
            Some(Value::Bool(b)) => !*b,
            _ => true,
        };
        if exported {
            let value = match entry.get("value") {
                Some(v) => v.deep_clone(),
                None => Value::Null,
            };
            let o = OutputValue { name: members[i].0.clone(), value };
            let ghost before = result@;
            result.push(o);
            assert(result@ == before.push(o));
            assert(output_models(result@) =~= output_models(before).push(o.model()));
        }
        k = k + 1;
    }
    assert(ms.take(k as int) =~= ms);
    Ok(result)
}

// ---------------------------------------------------------------- variables to export

/// A variable built from an export entry and the output it names.
#[derive(Debug, PartialEq, Eq)]
pub struct ExportValue {
    variable_name: String,
    variable_description: Option<String>,
    value: Value,
}

pub struct TargetModel {
    pub name: Seq<char>,
    pub description: Option<Seq<char>>,
    pub value: JsonValue,
}

impl ExportValue {
    pub closed spec fn model(&self) -> TargetModel {
        TargetModel {
            name: self.variable_name@,
            description: match self.variable_description {
                Some(d) => Some(d@),
                None => None,
            },
            value: self.value.model(),
        }
    }

    pub fn new(variable_name: String, variable_description: Option<String>, value: Value) -> (r: Self)
        ensures
            r.model() == (TargetModel {
                name: variable_name@,
                description: match variable_description {
                    Some(d) => Some(d@),
                    None => None,
                },
                value: value.model(),
            }),
    {
        ExportValue { variable_name, variable_description, value }
    }

    pub fn get_variable_name(&self) -> (r: &str)
        ensures
            r@ == self.model().name,
    {
        self.variable_name.as_str()
    }

    pub fn get_variable_description(&self) -> (r: &Option<String>)
        ensures
            match *r {
                Some(d) => self.model().description == Some(d@),
                None => self.model().description is None,
            },
    {
        &self.variable_description
    }

    pub fn get_value(&self) -> (r: &Value)
        ensures
            r.model() == self.model().value,
    {
        &self.value
    }
}

pub open spec fn target_models(ts: Seq<ExportValue>) -> Seq<TargetModel> {
    Seq::new(ts.len(), |k: int| ts[k].model())
}

/// The first output named `name`.
pub open spec fn output_named(os: Seq<OutputModel>, name: Seq<char>) -> Option<JsonValue>
    decreases os.len(),
{
    if os.len() == 0 {
        None
    } else if os[0].name == name {
        Some(os[0].value)
    } else {
        output_named(os.drop_first(), name)
    }
}

/// The variables of the entries, or the first source that has no output.
pub open spec fn exports_of(es: Seq<EntryModel>, os: Seq<OutputModel>) -> Result<Seq<TargetModel>, Seq<char>>
    decreases es.len(),
{
    if es.len() == 0 {
        Ok(Seq::empty())
    } else {
        match exports_of(es.drop_last(), os) {
            Err(n) => Err(n),
            Ok(ts) => match output_named(os, es.last().source) {
                Some(v) => Ok(ts.push(
                    TargetModel { name: es.last().destination, description: es.last().description, value: v },
                )),
                None => Err(es.last().source),
            },
        }
    }
}

/// The variables that an export list and an output-values document describe.
pub open spec fn export_outcome(list: Seq<char>, outputs: Seq<char>) -> Result<Seq<TargetModel>, InputFault> {
    match mapping_outcome(list) {
        Err(e) => Err(e),
        Ok(es) => match outputs_outcome(outputs) {
            Err(e) => Err(e),
            Ok(os) => match exports_of(es, os) {
                Ok(ts) => Ok(ts),
                Err(n) => Err(InputFault::UnknownOutput(n)),
            },
        },
    }
}

pub open spec fn exports_seen(r: Result<Vec<ExportValue>, InputError>) -> Result<Seq<TargetModel>, InputFault> {
    match r {
        Ok(v) => Ok(target_models(v@)),
        Err(e) => Err(e.model()),
    }
}

proof fn lemma_exports_of_err(es: Seq<EntryModel>, os: Seq<OutputModel>, n: int, x: Seq<char>)
    requires
        0 <= n <= es.len(),
        exports_of(es.take(n), os) == Err::<Seq<TargetModel>, Seq<char>>(x),
    ensures
        exports_of(es, os) == Err::<Seq<TargetModel>, Seq<char>>(x),
    decreases es.len() - n,
{
    if n < es.len() {
        assert(es.take(n + 1).drop_last() =~= es.take(n));
        lemma_exports_of_err(es, os, n + 1, x);
    } else {
        assert(es.take(n) =~= es);
    }
}

/// The value of the first output named `name`.
fn find_output<'a>(outputs: &'a Vec<OutputValue>, name: &String) -> (r: Option<&'a Value>)
    ensures
        match r {
            Some(v) => output_named(output_models(outputs@), name@) == Some(v.model()),
            None => output_named(output_models(outputs@), name@) is None,
        },
{
    let ghost os = output_models(outputs@);
    let mut k: usize = 0;
    assert(os.subrange(0, os.len() as int) =~= os);
    while k < outputs.len()
        invariant
            k <= outputs@.len(),
            os == output_models(outputs@),
            output_named(os, name@) == output_named(os.subrange(k as int, os.len() as int), name@),
        decreases outputs@.len() - k,
    {
        let ghost rest = os.subrange(k as int, os.len() as int);
        assert(rest.drop_first() =~= os.subrange(k + 1, os.len() as int));
        assert(rest[0] == outputs@[k as int].model());
        if crate::text::same_text(outputs[k].get_name(), name.as_str()) {
            return Some(outputs[k].get_value());
        }
        k = k + 1;
    }
    None
}

/// Builds one variable per export entry, from the output the entry names.
pub fn construct_export_value(export_list: &str, output_values: &str) -> (r: Result<Vec<ExportValue>, InputError>)
    ensures
        exports_seen(r) == export_outcome(export_list@, output_values@),
{
    let entries = match read_export_list(export_list) {
        Ok(es) => es,
        Err(e) => {
            return Err(e);
        },
    };
    let outputs = match get_outputs(output_values) {
        Ok(os) => os,
        Err(e) => {
            return Err(e);
        },
    };
    let ghost es = entry_models(entries@);
    let ghost os = output_models(outputs@);
    let mut result: Vec<ExportValue> = Vec::new();
    assert(target_models(result@) =~= Seq::empty());
    assert(es.take(0) =~= Seq::<EntryModel>::empty());
    let mut k: usize = 0;
    while k < entries.len()
        invariant
            k <= entries@.len(),
            es == entry_models(entries@),
            os == output_models(outputs@),
            mapping_outcome(export_list@) == Ok::<Seq<EntryModel>, InputFault>(es),
            outputs_outcome(output_values@) == Ok::<Seq<OutputModel>, InputFault>(os),
            exports_of(es.take(k as int), os) == Ok::<Seq<TargetModel>, Seq<char>>(target_models(result@)),
        decreases entries@.len() - k,
    {
        let e = &entries[k];
        proof {
            assert(es.take(k + 1).drop_last() =~= es.take(k as int));
            assert(es.take(k + 1).last() == e.model());
        }
        match find_output(&outputs, &e.source) {
            Some(v) => {
                let t = ExportValue::new(e.destination.clone(), e.description.clone(), v.deep_clone());
                let ghost before = result@;
                result.push(t);
                assert(result@ == before.push(t));
                assert(target_models(result@) =~= target_models(before).push(t.model()));
            },
            None => {
                proof {
                    lemma_exports_of_err(es, os, k + 1, e.source@);
                }
                return Err(InputError::UnknownOutput(e.source.clone()));
            },
        }
        k = k + 1;
    }
    assert(es.take(k as int) =~= es);
    Ok(result)
}

} // verus!
