//! The romaji to hiragana table of the Google Mozc project (BSD-3,
//! `src/data/preedit/romanji-hiragana.tsv`), kept as tab-separated text and
//! parsed into a lookup table.
//!
//! Format: one entry per line, `romaji<TAB>hiragana` or, for entries that leave
//! text in the input buffer, `romaji<TAB>hiragana<TAB>next_state` (for example
//! `kk` gives `っ` and leaves `k`). Lines with another number of columns are
//! ignored; a later line with the same romaji replaces an earlier one.

use vstd::prelude::*;
use crate::text::{chars_eq, chars_of, lemma_split_nonempty, spec_lines, spec_split, split_chars, string_of, vec_range};

verus! {

/// The table text.
pub const MOZC_TSV: &'static str = "\
-\tー\n\
~\t〜\n\
.\t。\n\
,\t、\n\
z/\t・\n\
z.\t…\n\
z,\t‥\n\
zh\t←\n\
zj\t↓\n\
zk\t↑\n\
zl\t→\n\
z-\t〜\n\
z[\t『\n\
z]\t』\n\
[\t「\n\
]\t」\n\
va\tゔぁ\n\
vi\tゔぃ\n\
vu\tゔ\n\
ve\tゔぇ\n\
vo\tゔぉ\n\
vya\tゔゃ\n\
vyi\tゔぃ\n\
vyu\tゔゅ\n\
vye\tゔぇ\n\
vyo\tゔょ\n\
qq\tっ\tq\n\
vv\tっ\tv\n\
ll\tっ\tl\n\
xx\tっ\tx\n\
kk\tっ\tk\n\
gg\tっ\tg\n\
ss\tっ\ts\n\
zz\tっ\tz\n\
jj\tっ\tj\n\
tt\tっ\tt\n\
tch\tっ\tch\n\
dd\tっ\td\n\
hh\tっ\th\n\
ff\tっ\tf\n\
bb\tっ\tb\n\
pp\tっ\tp\n\
mm\tっ\tm\n\
yy\tっ\ty\n\
rr\tっ\tr\n\
ww\tっ\tw\n\
www\tw\tww\n\
cc\tっ\tc\n\
kya\tきゃ\n\
kyi\tきぃ\n\
kyu\tきゅ\n\
kye\tきぇ\n\
kyo\tきょ\n\
gya\tぎゃ\n\
gyi\tぎぃ\n\
gyu\tぎゅ\n\
gye\tぎぇ\n\
gyo\tぎょ\n\
sya\tしゃ\n\
syi\tしぃ\n\
syu\tしゅ\n\
sye\tしぇ\n\
syo\tしょ\n\
sha\tしゃ\n\
shi\tし\n\
shu\tしゅ\n\
she\tしぇ\n\
sho\tしょ\n\
zya\tじゃ\n\
zyi\tじぃ\n\
zyu\tじゅ\n\
zye\tじぇ\n\
zyo\tじょ\n\
tya\tちゃ\n\
tyi\tちぃ\n\
tyu\tちゅ\n\
tye\tちぇ\n\
tyo\tちょ\n\
cha\tちゃ\n\
chi\tち\n\
chu\tちゅ\n\
che\tちぇ\n\
cho\tちょ\n\
cya\tちゃ\n\
cyi\tちぃ\n\
cyu\tちゅ\n\
cye\tちぇ\n\
cyo\tちょ\n\
dya\tぢゃ\n\
dyi\tぢぃ\n\
dyu\tぢゅ\n\
dye\tぢぇ\n\
dyo\tぢょ\n\
tsa\tつぁ\n\
tsi\tつぃ\n\
tse\tつぇ\n\
tso\tつぉ\n\
tha\tてゃ\n\
thi\tてぃ\n\
t'i\tてぃ\n\
thu\tてゅ\n\
the\tてぇ\n\
tho\tてょ\n\
t'yu\tてゅ\n\
dha\tでゃ\n\
dhi\tでぃ\n\
d'i\tでぃ\n\
dhu\tでゅ\n\
dhe\tでぇ\n\
dho\tでょ\n\
d'yu\tでゅ\n\
twa\tとぁ\n\
twi\tとぃ\n\
twu\tとぅ\n\
twe\tとぇ\n\
two\tとぉ\n\
t'u\tとぅ\n\
dwa\tどぁ\n\
dwi\tどぃ\n\
dwu\tどぅ\n\
dwe\tどぇ\n\
dwo\tどぉ\n\
d'u\tどぅ\n\
nya\tにゃ\n\
nyi\tにぃ\n\
nyu\tにゅ\n\
nye\tにぇ\n\
nyo\tにょ\n\
hya\tひゃ\n\
hyi\tひぃ\n\
hyu\tひゅ\n\
hye\tひぇ\n\
hyo\tひょ\n\
bya\tびゃ\n\
byi\tびぃ\n\
byu\tびゅ\n\
bye\tびぇ\n\
byo\tびょ\n\
pya\tぴゃ\n\
pyi\tぴぃ\n\
pyu\tぴゅ\n\
pye\tぴぇ\n\
pyo\tぴょ\n\
fa\tふぁ\n\
fi\tふぃ\n\
fu\tふ\n\
fe\tふぇ\n\
fo\tふぉ\n\
fya\tふゃ\n\
fyu\tふゅ\n\
fyo\tふょ\n\
hwa\tふぁ\n\
hwi\tふぃ\n\
hwe\tふぇ\n\
hwo\tふぉ\n\
hwyu\tふゅ\n\
mya\tみゃ\n\
myi\tみぃ\n\
myu\tみゅ\n\
mye\tみぇ\n\
myo\tみょ\n\
rya\tりゃ\n\
ryi\tりぃ\n\
ryu\tりゅ\n\
rye\tりぇ\n\
ryo\tりょ\n\
n'\tん\n\
nn\tん\n\
n\tん\n\
xn\tん\n\
a\tあ\n\
i\tい\n\
u\tう\n\
wu\tう\n\
e\tえ\n\
o\tお\n\
xa\tぁ\n\
xi\tぃ\n\
xu\tぅ\n\
xe\tぇ\n\
xo\tぉ\n\
la\tぁ\n\
li\tぃ\n\
lu\tぅ\n\
le\tぇ\n\
lo\tぉ\n\
lyi\tぃ\n\
xyi\tぃ\n\
lye\tぇ\n\
xye\tぇ\n\
ye\tいぇ\n\
ka\tか\n\
ki\tき\n\
ku\tく\n\
ke\tけ\n\
ko\tこ\n\
xka\tヵ\n\
xke\tヶ\n\
lka\tヵ\n\
lke\tヶ\n\
ga\tが\n\
gi\tぎ\n\
gu\tぐ\n\
ge\tげ\n\
go\tご\n\
sa\tさ\n\
si\tし\n\
su\tす\n\
se\tせ\n\
so\tそ\n\
ca\tか\n\
ci\tし\n\
cu\tく\n\
ce\tせ\n\
co\tこ\n\
qa\tくぁ\n\
qi\tくぃ\n\
qu\tく\n\
qe\tくぇ\n\
qo\tくぉ\n\
kwa\tくぁ\n\
kwi\tくぃ\n\
kwu\tくぅ\n\
kwe\tくぇ\n\
kwo\tくぉ\n\
gwa\tぐぁ\n\
gwi\tぐぃ\n\
gwu\tぐぅ\n\
gwe\tぐぇ\n\
gwo\tぐぉ\n\
za\tざ\n\
zi\tじ\n\
zu\tず\n\
ze\tぜ\n\
zo\tぞ\n\
ja\tじゃ\n\
ji\tじ\n\
ju\tじゅ\n\
je\tじぇ\n\
jo\tじょ\n\
jya\tじゃ\n\
jyi\tじぃ\n\
jyu\tじゅ\n\
jye\tじぇ\n\
jyo\tじょ\n\
ta\tた\n\
ti\tち\n\
tu\tつ\n\
tsu\tつ\n\
te\tて\n\
to\tと\n\
da\tだ\n\
di\tぢ\n\
du\tづ\n\
de\tで\n\
do\tど\n\
xtu\tっ\n\
xtsu\tっ\n\
ltu\tっ\n\
ltsu\tっ\n\
na\tな\n\
ni\tに\n\
nu\tぬ\n\
ne\tね\n\
no\tの\n\
ha\tは\n\
hi\tひ\n\
hu\tふ\n\
he\tへ\n\
ho\tほ\n\
ba\tば\n\
bi\tび\n\
bu\tぶ\n\
be\tべ\n\
bo\tぼ\n\
pa\tぱ\n\
pi\tぴ\n\
pu\tぷ\n\
pe\tぺ\n\
po\tぽ\n\
ma\tま\n\
mi\tみ\n\
mu\tむ\n\
me\tめ\n\
mo\tも\n\
xya\tゃ\n\
lya\tゃ\n\
ya\tや\n\
xyu\tゅ\n\
lyu\tゅ\n\
yu\tゆ\n\
xyo\tょ\n\
lyo\tょ\n\
yo\tよ\n\
ra\tら\n\
ri\tり\n\
ru\tる\n\
re\tれ\n\
ro\tろ\n\
xwa\tゎ\n\
lwa\tゎ\n\
wa\tわ\n\
wi\tうぃ\n\
we\tうぇ\n\
wo\tを\n\
wyi\tゐ\n\
wye\tゑ\n\
whi\tうぃ\n\
whe\tうぇ\n\
who\tうぉ\n\
wha\tうぁ\n\
whu\tう\n\
";

/// One table entry: the kana to output and what stays in the buffer.
#[derive(Debug)]
pub struct RomajiEntry {
    /// The kana string to output.
    pub kana: String,
    /// Text left in the input buffer after the conversion (`None`: nothing).
    pub next_state: Option<String>,
}

/// The characters of an optional string.
pub open spec fn opt_chars(o: Option<String>) -> Option<Seq<char>> {
    match o {
        Some(s) => Some(s@),
        None => None,
    }
}

/// The view of an entry: `(kana, next_state)`.
pub type EntryView = (Seq<char>, Option<Seq<char>>);

/// The view of a table: its rows `(romaji, entry)` in insertion order.
pub type TableView = Seq<(Seq<char>, EntryView)>;

impl View for RomajiEntry {
    type V = EntryView;

    open spec fn view(&self) -> EntryView {
        (self.kana@, opt_chars(self.next_state))
    }
}

/// One row of the table.
#[derive(Debug)]
pub struct TableRow {
    key: Vec<char>,
    entry: RomajiEntry,
}

impl View for TableRow {
    type V = (Seq<char>, EntryView);

    closed spec fn view(&self) -> (Seq<char>, EntryView) {
        (self.key@, self.entry@)
    }
}

/// A lookup table from romaji to entries, kept as rows in insertion order.
#[derive(Debug)]
pub struct MozcTable {
    rows: Vec<TableRow>,
}

impl View for MozcTable {
    type V = TableView;

    closed spec fn view(&self) -> TableView {
        self.rows@.map_values(|r: TableRow| r@)
    }
}

/// Index of the first row at or after `i` whose key is `k` (or -1).
pub open spec fn spec_find_from(t: TableView, k: Seq<char>, i: int) -> int
    decreases t.len() - i,
{
    if i < 0 || i >= t.len() {
        -1
    } else if t[i].0 == k {
        i
    } else {
        spec_find_from(t, k, i + 1)
    }
}

/// Index of the row whose key is `k` (or -1).
pub open spec fn spec_find(t: TableView, k: Seq<char>) -> int {
    spec_find_from(t, k, 0)
}

/// The entry stored under `k`.
pub open spec fn spec_get(t: TableView, k: Seq<char>) -> Option<EntryView> {
    let i = spec_find(t, k);
    if i < 0 {
        None
    } else {
        Some(t[i].1)
    }
}

/// Inserting `k -> v`: replaces the row of `k` or appends a new row.
pub open spec fn spec_insert(t: TableView, k: Seq<char>, v: EntryView) -> TableView {
    let i = spec_find(t, k);
    if i < 0 {
        t.push((k, v))
    } else {
        t.update(i, (k, v))
    }
}

/// The entry a table line describes (2 or 3 tab-separated columns).
pub open spec fn spec_line_entry(line: Seq<char>) -> Option<(Seq<char>, EntryView)> {
    let cols = spec_split(line, '\t');
    if cols.len() == 2 {
        Some((cols[0], (cols[1], None)))
    } else if cols.len() == 3 {
        Some((cols[0], (cols[1], Some(cols[2]))))
    } else {
        None
    }
}

/// The table built from lines, in order.
pub open spec fn spec_table_from_lines(lines: Seq<Seq<char>>) -> TableView
    decreases lines.len(),
{
    if lines.len() == 0 {
        Seq::empty()
    } else {
        let t = spec_table_from_lines(lines.drop_last());
        match spec_line_entry(lines.last()) {
            Some(kv) => spec_insert(t, kv.0, kv.1),
            None => t,
        }
    }
}

/// The table described by a tab-separated text.
pub open spec fn spec_parse_table(text: Seq<char>) -> TableView {
    spec_table_from_lines(spec_lines(text))
}

/// The romaji table used for input.
pub open spec fn mozc_spec_table() -> TableView {
    spec_parse_table(MOZC_TSV@)
}

/// No two rows have the same key.
pub open spec fn spec_keys_distinct(t: TableView) -> bool {
    forall|i: int, j: int| 0 <= i < j < t.len() ==> t[i].0 != t[j].0
}

/// `spec_find` reports a row with the key, and -1 only when there is none.
pub proof fn lemma_find_from(t: TableView, k: Seq<char>, i: int)
    requires
        0 <= i,
    ensures
        spec_find_from(t, k, i) == -1 || (i <= spec_find_from(t, k, i) < t.len() && t[spec_find_from(t, k, i)].0 == k),
        spec_find_from(t, k, i) == -1 ==> forall|j: int| i <= j < t.len() ==> t[j].0 != k,
    decreases t.len() - i,
{
    if i < t.len() && t[i].0 != k {
        lemma_find_from(t, k, i + 1);
    }
}

/// In a table with distinct keys, the row at an index holding `k` is the one found.
pub proof fn lemma_find_unique(t: TableView, k: Seq<char>, i: int)
    requires
        spec_keys_distinct(t),
        0 <= i < t.len(),
        t[i].0 == k,
    ensures
        spec_find(t, k) == i,
{
    lemma_find_from(t, k, 0);
}

/// Inserting keeps keys distinct.
pub proof fn lemma_insert_distinct(t: TableView, k: Seq<char>, v: EntryView)
    requires
        spec_keys_distinct(t),
    ensures
        spec_keys_distinct(spec_insert(t, k, v)),
{
    lemma_find_from(t, k, 0);
}

/// A table built from lines has distinct keys.
pub proof fn lemma_table_distinct(lines: Seq<Seq<char>>)
    ensures
        spec_keys_distinct(spec_table_from_lines(lines)),
    decreases lines.len(),
{
    if lines.len() > 0 {
        lemma_table_distinct(lines.drop_last());
        let t = spec_table_from_lines(lines.drop_last());
        match spec_line_entry(lines.last()) {
            Some(kv) => lemma_insert_distinct(t, kv.0, kv.1),
            None => {},
        }
    }
}

fn opt_string_clone(o: &Option<String>) -> (r: Option<String>)
    ensures
        opt_chars(r) == opt_chars(*o),
{
    match o {
        Some(s) => Some(s.clone()),
        None => None,
    }
}

impl RomajiEntry {
    /// A copy of this entry.
    pub fn duplicate(&self) -> (r: RomajiEntry)
        ensures
            r@ == self@,
    {
        RomajiEntry { kana: self.kana.clone(), next_state: opt_string_clone(&self.next_state) }
    }
}

impl MozcTable {
    /// An empty table.
    pub fn empty() -> (t: MozcTable)
        ensures
            t@ == Seq::<(Seq<char>, EntryView)>::empty(),
    {
        let t = MozcTable { rows: Vec::new() };
        proof {
            assert(t@ =~= Seq::<(Seq<char>, EntryView)>::empty());
        }
        t
    }

    fn find_index(&self, key: &Vec<char>) -> (r: Option<usize>)
        ensures
            match r {
                Some(i) => spec_find(self@, key@) == i && i < self.rows.len() && i < self@.len(),
                None => spec_find(self@, key@) == -1,
            },
    {
        let mut i: usize = 0;
        assert(self@.len() == self.rows@.len());
        while i < self.rows.len()
            invariant
                i <= self.rows.len(),
                spec_find(self@, key@) == spec_find_from(self@, key@, i as int),
            decreases self.rows.len() - i,
        {
            assert(self@[i as int] == self.rows@[i as int]@);
            if chars_eq(&self.rows[i].key, key) {
                return Some(i);
            }
            i = i + 1;
        }
        None
    }

    /// Inserts `key -> entry`, replacing an earlier entry with the same key.
    pub fn insert(&mut self, key: Vec<char>, entry: RomajiEntry)
        ensures
            final(self)@ == spec_insert(old(self)@, key@, entry@),
    {
        let ghost k = key@;
        let ghost v = entry@;
        let found = self.find_index(&key);
        match found {
            Some(i) => {
                self.rows.set(i, TableRow { key, entry });
                proof {
                    assert(self@ =~= spec_insert(old(self)@, k, v));
                }
            },
            None => {
                self.rows.push(TableRow { key, entry });
                proof {
                    assert(self@ =~= spec_insert(old(self)@, k, v));
                }
            },
        }
    }

    /// The entry stored under a romaji key given as characters.
    pub fn get_chars(&self, key: &Vec<char>) -> (r: Option<&RomajiEntry>)
        ensures
            match r {
                Some(e) => spec_get(self@, key@) == Some(e@),
                None => spec_get(self@, key@) is None,
            },
    {
        match self.find_index(key) {
            Some(i) => {
                assert(self@[i as int] == self.rows@[i as int]@);
                Some(&self.rows[i].entry)
            },
            None => None,
        }
    }

    /// The entry stored under a romaji key.
    pub fn get(&self, key: &str) -> (r: Option<&RomajiEntry>)
        ensures
            match r {
                Some(e) => spec_get(self@, key@) == Some(e@),
                None => spec_get(self@, key@) is None,
            },
    {
        let k = chars_of(key);
        self.get_chars(&k)
    }

    /// Whether the table has an entry for `key`.
    pub fn contains_key(&self, key: &str) -> (r: bool)
        ensures
            r == (spec_get(self@, key@) is Some),
    {
        self.get(key).is_some()
    }

    /// Number of entries (distinct keys).
    pub fn len(&self) -> (r: usize)
        ensures
            r == self@.len(),
    {
        self.rows.len()
    }
}

/// The entry a line describes, built from its columns.
fn line_entry(line: &Vec<char>) -> (r: Option<(Vec<char>, RomajiEntry)>)
    ensures
        match r {
            Some(kv) => spec_line_entry(line@) == Some((kv.0@, kv.1@)),
            None => spec_line_entry(line@) is None,
        },
{
    let cols = split_chars(line, '\t');
    if cols.len() == 2 {
        let kana = string_of(&cols[1]);
        Some((vec_range(&cols[0], 0, cols[0].len()), RomajiEntry { kana, next_state: None }))
    } else if cols.len() == 3 {
        let kana = string_of(&cols[1]);
        let next = string_of(&cols[2]);
        let key = vec_range(&cols[0], 0, cols[0].len());
        proof {
            assert(cols[0]@.subrange(0, cols[0]@.len() as int) =~= cols[0]@);
        }
        Some((key, RomajiEntry { kana, next_state: Some(next) }))
    } else {
        None
    }
}

/// Parses a tab-separated romaji table.
pub fn parse_table(text: &str) -> (t: MozcTable)
    ensures
        t@ == spec_parse_table(text@),
        spec_keys_distinct(t@),
{
    let chars = chars_of(text);
    let parts = split_chars(&chars, '\n');
    proof {
        lemma_split_nonempty(chars@, '\n');
    }
    let n = if parts[parts.len() - 1].len() == 0 { parts.len() - 1 } else { parts.len() };
    let ghost lines = spec_lines(text@);
    assert(lines.len() == n);
    let mut t = MozcTable::empty();
    let mut i: usize = 0;
    while i < n
        invariant
            i <= n <= parts.len(),
            lines.len() == n,
            forall|j: int| 0 <= j < n ==> #[trigger] parts@[j]@ == lines[j],
            t@ == spec_table_from_lines(lines.take(i as int)),
        decreases n - i,
    {
        proof {
            assert(lines.take(i as int + 1).drop_last() =~= lines.take(i as int));
            assert(lines.take(i as int + 1).last() == lines[i as int]);
        }
        match line_entry(&parts[i]) {
            Some(kv) => {
                let (k, v) = kv;
                t.insert(k, v);
            },
            None => {},
        }
        i = i + 1;
    }
    proof {
        assert(lines.take(n as int) =~= lines);
        lemma_table_distinct(lines);
    }
    t
}

/// The romaji table used by the converter, parsed from [`MOZC_TSV`].
pub fn mozc_table() -> (t: MozcTable)
    ensures
        t@ == mozc_spec_table(),
        spec_keys_distinct(t@),
{
    parse_table(MOZC_TSV)
}

} // verus!
