//! The system dictionary: a static word list kept as tab-separated text and
//! parsed into a table from a reading to its words.
//!
//! Format: one reading per line, `reading<TAB>surface<TAB>pos<TAB>surface<TAB>pos...`
//! with one or more (surface, part of speech) pairs. Lines with another shape
//! are ignored; a later line with the same reading replaces an earlier one.

use vstd::prelude::*;
use crate::candidate::{cands_view, Candidate, CandidateSource, CandidateView};
use crate::error::NukoError;
use crate::text::{
    chars_lt, chars_eq, chars_of, lemma_seq_lt_asymmetric, lemma_seq_lt_irreflexive,
    lemma_seq_lt_total, lemma_seq_lt_transitive, lemma_split_nonempty, seq_lt, spec_lines,
    spec_split, spec_starts_with, split_chars, string_of, vec_range,
};

verus! {

/// The word list.
pub const SYSTEM_DICT_TEXT: &'static str = "\
にほん\t日本\t名詞\t二本\t名詞\n\
にほんご\t日本語\t名詞\n\
にほんじん\t日本人\t名詞\n\
ぬこ\tぬこ\t名詞\t猫\t名詞\n\
ねこ\t猫\t名詞\tネコ\t名詞\n\
いぬ\t犬\t名詞\tイヌ\t名詞\n\
いめ\tIME\t名詞\n\
にゅうりょく\t入力\t名詞\n\
しゅつりょく\t出力\t名詞\n\
へんかん\t変換\t名詞\t返還\t名詞\n\
かんじ\t漢字\t名詞\t幹事\t名詞\t感じ\t名詞\n\
ひらがな\t平仮名\t名詞\tひらがな\t名詞\n\
かたかな\t片仮名\t名詞\tカタカナ\t名詞\n\
もじ\t文字\t名詞\n\
ことば\t言葉\t名詞\n\
ぶんしょう\t文章\t名詞\n\
とうきょう\t東京\t名詞\n\
おおさか\t大阪\t名詞\n\
きょうと\t京都\t名詞\n\
なごや\t名古屋\t名詞\n\
ふくおか\t福岡\t名詞\n\
ほっかいどう\t北海道\t名詞\n\
よこはま\t横浜\t名詞\n\
こうべ\t神戸\t名詞\n\
さっぽろ\t札幌\t名詞\n\
せんだい\t仙台\t名詞\n\
ひろしま\t広島\t名詞\n\
おきなわ\t沖縄\t名詞\n\
こんにちは\tこんにちは\t感動詞\t今日は\t感動詞\n\
こんばんは\tこんばんは\t感動詞\t今晩は\t感動詞\n\
おはよう\tおはよう\t感動詞\tお早う\t感動詞\n\
おはようございます\tおはようございます\t感動詞\n\
ありがとう\tありがとう\t感動詞\t有難う\t感動詞\n\
ありがとうございます\tありがとうございます\t感動詞\n\
すみません\tすみません\t感動詞\t済みません\t感動詞\n\
ごめんなさい\tごめんなさい\t感動詞\n\
さようなら\tさようなら\t感動詞\t左様なら\t感動詞\n\
おやすみなさい\tおやすみなさい\t感動詞\n\
いただきます\tいただきます\t感動詞\t頂きます\t感動詞\n\
ごちそうさま\tごちそうさま\t感動詞\t御馳走様\t感動詞\n\
わたし\t私\t代名詞\tわたし\t代名詞\n\
わたくし\t私\t代名詞\n\
ぼく\t僕\t代名詞\n\
おれ\t俺\t代名詞\n\
あなた\tあなた\t代名詞\t貴方\t代名詞\t貴女\t代名詞\n\
きみ\t君\t代名詞\n\
かれ\t彼\t代名詞\n\
かのじょ\t彼女\t代名詞\n\
これ\tこれ\t代名詞\t此れ\t代名詞\n\
それ\tそれ\t代名詞\t其れ\t代名詞\n\
あれ\tあれ\t代名詞\t彼れ\t代名詞\n\
どれ\tどれ\t代名詞\n\
ここ\tここ\t代名詞\t此処\t代名詞\n\
そこ\tそこ\t代名詞\t其処\t代名詞\n\
あそこ\tあそこ\t代名詞\t彼処\t代名詞\n\
どこ\tどこ\t代名詞\t何処\t代名詞\n\
いま\t今\t名詞\t居間\t名詞\n\
きょう\t今日\t名詞\t京\t名詞\n\
あした\t明日\t名詞\n\
あす\t明日\t名詞\n\
きのう\t昨日\t名詞\n\
おととい\t一昨日\t名詞\n\
あさって\t明後日\t名詞\n\
こんしゅう\t今週\t名詞\n\
らいしゅう\t来週\t名詞\n\
せんしゅう\t先週\t名詞\n\
こんげつ\t今月\t名詞\n\
らいげつ\t来月\t名詞\n\
せんげつ\t先月\t名詞\n\
ことし\t今年\t名詞\n\
らいねん\t来年\t名詞\n\
きょねん\t去年\t名詞\n\
おととし\t一昨年\t名詞\n\
ぷろぐらむ\tプログラム\t名詞\n\
ぷろぐらみんぐ\tプログラミング\t名詞\n\
こーど\tコード\t名詞\n\
そーすこーど\tソースコード\t名詞\n\
かいはつ\t開発\t名詞\n\
せっけい\t設計\t名詞\n\
じっそう\t実装\t名詞\n\
てすと\tテスト\t名詞\n\
でばっぐ\tデバッグ\t名詞\n\
りりーす\tリリース\t名詞\n\
でぷろい\tデプロイ\t名詞\n\
びるど\tビルド\t名詞\n\
こんぱいる\tコンパイル\t名詞\n\
らいぶらり\tライブラリ\t名詞\n\
ふれーむわーく\tフレームワーク\t名詞\n\
えんじにあ\tエンジニア\t名詞\n\
ぷろぐらまー\tプログラマー\t名詞\n\
でーたべーす\tデータベース\t名詞\n\
さーばー\tサーバー\t名詞\n\
くらいあんと\tクライアント\t名詞\n\
ねっとわーく\tネットワーク\t名詞\n\
せきゅりてぃ\tセキュリティ\t名詞\n\
ぱふぉーまんす\tパフォーマンス\t名詞\n\
あるごりずむ\tアルゴリズム\t名詞\n\
いんたーふぇーす\tインターフェース\t名詞\n\
する\tする\t動詞\t為る\t動詞\n\
なる\tなる\t動詞\t成る\t動詞\n\
ある\tある\t動詞\t有る\t動詞\n\
いる\tいる\t動詞\t居る\t動詞\n\
みる\t見る\t動詞\n\
きく\t聞く\t動詞\t効く\t動詞\n\
いく\t行く\t動詞\n\
くる\t来る\t動詞\n\
かく\t書く\t動詞\t描く\t動詞\n\
よむ\t読む\t動詞\n\
はなす\t話す\t動詞\t放す\t動詞\n\
たべる\t食べる\t動詞\n\
のむ\t飲む\t動詞\n\
ねる\t寝る\t動詞\n\
おきる\t起きる\t動詞\n\
あるく\t歩く\t動詞\n\
はしる\t走る\t動詞\n\
およぐ\t泳ぐ\t動詞\n\
つくる\t作る\t動詞\t創る\t動詞\n\
かんがえる\t考える\t動詞\n\
おもう\t思う\t動詞\n\
しる\t知る\t動詞\n\
わかる\t分かる\t動詞\t解る\t動詞\n\
できる\t出来る\t動詞\n\
おおきい\t大きい\t形容詞\n\
ちいさい\t小さい\t形容詞\n\
ながい\t長い\t形容詞\n\
みじかい\t短い\t形容詞\n\
たかい\t高い\t形容詞\n\
ひくい\t低い\t形容詞\n\
あつい\t暑い\t形容詞\t熱い\t形容詞\t厚い\t形容詞\n\
さむい\t寒い\t形容詞\n\
あたらしい\t新しい\t形容詞\n\
ふるい\t古い\t形容詞\n\
いい\t良い\t形容詞\tいい\t形容詞\n\
わるい\t悪い\t形容詞\n\
むずかしい\t難しい\t形容詞\n\
やさしい\t易しい\t形容詞\t優しい\t形容詞\n\
たのしい\t楽しい\t形容詞\n\
うれしい\t嬉しい\t形容詞\n\
かなしい\t悲しい\t形容詞\n\
いち\t一\t名詞\t1\t名詞\n\
に\t二\t名詞\t2\t名詞\n\
さん\t三\t名詞\t3\t名詞\n\
よん\t四\t名詞\t4\t名詞\n\
し\t四\t名詞\n\
ご\t五\t名詞\t5\t名詞\n\
ろく\t六\t名詞\t6\t名詞\n\
なな\t七\t名詞\t7\t名詞\n\
しち\t七\t名詞\n\
はち\t八\t名詞\t8\t名詞\n\
きゅう\t九\t名詞\t9\t名詞\n\
く\t九\t名詞\n\
じゅう\t十\t名詞\t10\t名詞\n\
ひゃく\t百\t名詞\t100\t名詞\n\
せん\t千\t名詞\t1000\t名詞\n\
まん\t万\t名詞\n\
おく\t億\t名詞\n\
そして\tそして\t接続詞\n\
しかし\tしかし\t接続詞\t然し\t接続詞\n\
だから\tだから\t接続詞\n\
でも\tでも\t接続詞\n\
また\tまた\t接続詞\t又\t接続詞\n\
または\tまたは\t接続詞\t又は\t接続詞\n\
および\tおよび\t接続詞\t及び\t接続詞\n\
ひと\t人\t名詞\n\
もの\t物\t名詞\t者\t名詞\n\
こと\t事\t名詞\tこと\t名詞\n\
とき\t時\t名詞\n\
ところ\t所\t名詞\tところ\t名詞\n\
かた\t方\t名詞\t型\t名詞\n\
かたち\t形\t名詞\n\
いろ\t色\t名詞\n\
おと\t音\t名詞\n\
こえ\t声\t名詞\n\
て\t手\t名詞\n\
あし\t足\t名詞\t脚\t名詞\n\
め\t目\t名詞\t眼\t名詞\n\
みみ\t耳\t名詞\n\
くち\t口\t名詞\n\
はな\t花\t名詞\t鼻\t名詞\n\
あたま\t頭\t名詞\n\
からだ\t体\t名詞\t身体\t名詞\n\
こころ\t心\t名詞\n\
きもち\t気持ち\t名詞\n\
かんがえ\t考え\t名詞\n\
きおく\t記憶\t名詞\n\
けいけん\t経験\t名詞\n\
しごと\t仕事\t名詞\n\
がっこう\t学校\t名詞\n\
かいしゃ\t会社\t名詞\n\
いえ\t家\t名詞\n\
うち\t家\t名詞\t内\t名詞\n\
へや\t部屋\t名詞\n\
まち\t町\t名詞\t街\t名詞\n\
くに\t国\t名詞\n\
せかい\t世界\t名詞\n\
";

/// A word of the dictionary: `(surface, part of speech)`.
pub type WordView = (Seq<char>, Seq<char>);

/// The view of the dictionary: its rows `(reading, words)` in insertion order.
pub type DictView = Seq<(Seq<char>, Seq<WordView>)>;

/// Index of the first row at or after `i` whose reading is `k` (or -1).
pub open spec fn dict_find_from(t: DictView, k: Seq<char>, i: int) -> int
    decreases t.len() - i,
{
    if i < 0 || i >= t.len() {
        -1
    } else if t[i].0 == k {
        i
    } else {
        dict_find_from(t, k, i + 1)
    }
}

/// Index of the row whose reading is `k` (or -1).
pub open spec fn dict_find(t: DictView, k: Seq<char>) -> int {
    dict_find_from(t, k, 0)
}

/// The words stored under `k`.
pub open spec fn dict_get(t: DictView, k: Seq<char>) -> Option<Seq<WordView>> {
    let i = dict_find(t, k);
    if i < 0 {
        None
    } else {
        Some(t[i].1)
    }
}

/// Inserting `k -> w`: replaces the row of `k` or appends a new row.
pub open spec fn dict_insert(t: DictView, k: Seq<char>, w: Seq<WordView>) -> DictView {
    let i = dict_find(t, k);
    if i < 0 {
        t.push((k, w))
    } else {
        t.update(i, (k, w))
    }
}

/// No two rows have the same reading.
pub open spec fn dict_keys_distinct(t: DictView) -> bool {
    forall|i: int, j: int| 0 <= i < j < t.len() ==> t[i].0 != t[j].0
}

/// The row a line describes: a reading followed by one or more
/// (surface, part of speech) pairs.
pub open spec fn spec_dict_line(line: Seq<char>) -> Option<(Seq<char>, Seq<WordView>)> {
    let cols = spec_split(line, '\t');
    if cols.len() >= 3 && cols.len() % 2 == 1 {
        Some((cols[0], Seq::new(((cols.len() - 1) / 2) as nat, |i: int| (cols[1 + 2 * i], cols[2 + 2 * i]))))
    } else {
        None
    }
}

/// The dictionary built from lines, in order.
pub open spec fn spec_dict_from_lines(lines: Seq<Seq<char>>) -> DictView
    decreases lines.len(),
{
    if lines.len() == 0 {
        Seq::empty()
    } else {
        let t = spec_dict_from_lines(lines.drop_last());
        match spec_dict_line(lines.last()) {
            Some(kw) => dict_insert(t, kw.0, kw.1),
            None => t,
        }
    }
}

/// The dictionary described by a text.
pub open spec fn spec_parse_dict(text: Seq<char>) -> DictView {
    spec_dict_from_lines(spec_lines(text))
}

/// The dictionary of the library.
pub open spec fn system_spec_dict() -> DictView {
    spec_parse_dict(SYSTEM_DICT_TEXT@)
}

/// The score of the `i`-th word of a reading: 100 for the first, one less for
/// each following word (held at `i32::MIN` past the range of `i32`).
pub open spec fn spec_word_score(i: int) -> i32 {
    if i <= i32::MAX {
        (100 - i) as i32
    } else {
        i32::MIN
    }
}

/// The candidates for the words of a reading, in order.
pub open spec fn spec_word_cands(reading: Seq<char>, words: Seq<WordView>) -> Seq<CandidateView> {
    Seq::new(
        words.len(),
        |i: int|
            CandidateView {
                surface: words[i].0,
                reading,
                pos: Some(words[i].1),
                score: spec_word_score(i),
                source: CandidateSource::System,
            },
    )
}

/// The candidates a dictionary gives for a reading (none when it is absent).
pub open spec fn spec_dict_lookup(t: DictView, reading: Seq<char>) -> Seq<CandidateView> {
    match dict_get(t, reading) {
        Some(w) => spec_word_cands(reading, w),
        None => Seq::empty(),
    }
}

/// A prefix search result: the readings of `t` that start with `prefix`, each
/// once, in ascending code-point order, each with its candidates.
pub open spec fn spec_prefix_result(t: DictView, prefix: Seq<char>, r: Seq<(Seq<char>, Seq<CandidateView>)>) -> bool {
    &&& forall|i: int, j: int| 0 <= i < j < r.len() ==> seq_lt(#[trigger] r[i].0, #[trigger] r[j].0)
    &&& forall|i: int| 0 <= i < r.len() ==> {
        &&& dict_get(t, #[trigger] r[i].0) is Some
        &&& spec_starts_with(r[i].0, prefix)
        &&& r[i].1 == spec_dict_lookup(t, r[i].0)
    }
    &&& forall|k: int| 0 <= k < t.len() && spec_starts_with(#[trigger] t[k].0, prefix) ==>
        exists|i: int| 0 <= i < r.len() && r[i].0 == t[k].0
}

/// `dict_find` reports a row with the reading, and -1 only when there is none.
pub proof fn lemma_dict_find_from(t: DictView, k: Seq<char>, i: int)
    requires
        0 <= i,
    ensures
        dict_find_from(t, k, i) == -1 || (i <= dict_find_from(t, k, i) < t.len() && t[dict_find_from(t, k, i)].0 == k),
        dict_find_from(t, k, i) == -1 ==> forall|j: int| i <= j < t.len() ==> t[j].0 != k,
    decreases t.len() - i,
{
    if i < t.len() && t[i].0 != k {
        lemma_dict_find_from(t, k, i + 1);
    }
}

/// In a dictionary with distinct readings, the row holding `k` is the one found.
pub proof fn lemma_dict_find_unique(t: DictView, k: Seq<char>, i: int)
    requires
        dict_keys_distinct(t),
        0 <= i < t.len(),
        t[i].0 == k,
    ensures
        dict_find(t, k) == i,
{
    lemma_dict_find_from(t, k, 0);
}

/// A dictionary built from lines has distinct readings.
pub proof fn lemma_dict_distinct(lines: Seq<Seq<char>>)
    ensures
        dict_keys_distinct(spec_dict_from_lines(lines)),
    decreases lines.len(),
{
    if lines.len() > 0 {
        lemma_dict_distinct(lines.drop_last());
        let t = spec_dict_from_lines(lines.drop_last());
        match spec_dict_line(lines.last()) {
            Some(kw) => lemma_dict_find_from(t, kw.0, 0),
            None => {},
        }
    }
}

// ------------------------------------------------------------ rows

/// One row: a reading and its words.
#[derive(Debug)]
struct DictRow {
    reading: Vec<char>,
    words: Vec<(String, String)>,
}

/// The view of a list of words.
pub open spec fn words_view(v: Seq<(String, String)>) -> Seq<WordView> {
    v.map_values(|p: (String, String)| (p.0@, p.1@))
}

impl View for DictRow {
    type V = (Seq<char>, Seq<WordView>);

    closed spec fn view(&self) -> (Seq<char>, Seq<WordView>) {
        (self.reading@, words_view(self.words@))
    }
}

spec fn rows_view(v: Seq<DictRow>) -> DictView {
    v.map_values(|r: DictRow| r@)
}

fn find_row(rows: &Vec<DictRow>, key: &Vec<char>) -> (r: Option<usize>)
    ensures
        match r {
            Some(i) => dict_find(rows_view(rows@), key@) == i && i < rows.len(),
            None => dict_find(rows_view(rows@), key@) == -1,
        },
{
    let ghost t = rows_view(rows@);
    let mut i: usize = 0;
    while i < rows.len()
        invariant
            i <= rows.len(),
            t == rows_view(rows@),
            dict_find(t, key@) == dict_find_from(t, key@, i as int),
        decreases rows.len() - i,
    {
        assert(t[i as int] == rows@[i as int]@);
        if chars_eq(&rows[i].reading, key) {
            return Some(i);
        }
        i = i + 1;
    }
    None
}

fn insert_row(rows: &mut Vec<DictRow>, key: Vec<char>, words: Vec<(String, String)>)
    ensures
        rows_view(final(rows)@) == dict_insert(rows_view(old(rows)@), key@, words_view(words@)),
{
    let ghost k = key@;
    let ghost w = words_view(words@);
    match find_row(rows, &key) {
        Some(i) => {
            rows.set(i, DictRow { reading: key, words });
            proof {
                assert(rows_view(rows@) =~= dict_insert(rows_view(old(rows)@), k, w));
            }
        },
        None => {
            rows.push(DictRow { reading: key, words });
            proof {
                assert(rows_view(rows@) =~= dict_insert(rows_view(old(rows)@), k, w));
            }
        },
    }
}

fn dict_line(line: &Vec<char>) -> (r: Option<(Vec<char>, Vec<(String, String)>)>)
    ensures
        match r {
            Some(kw) => spec_dict_line(line@) == Some((kw.0@, words_view(kw.1@))),
            None => spec_dict_line(line@) is None,
        },
{
    let cols = split_chars(line, '\t');
    let n = cols.len();
    if n >= 3 && n % 2 == 1 {
        let ghost sc = spec_split(line@, '\t');
        let mut words: Vec<(String, String)> = Vec::new();
        let mut i: usize = 0;
        while i < (n - 1) / 2
            invariant
                n == cols@.len() == sc.len(),
                n >= 3,
                n % 2 == 1,
                i <= (n - 1) / 2,
                forall|j: int| 0 <= j < n ==> #[trigger] cols@[j]@ == sc[j],
                words_view(words@) == Seq::new(i as nat, |j: int| (sc[1 + 2 * j], sc[2 + 2 * j])),
            decreases (n - 1) / 2 - i,
        {
            let s = string_of(&cols[1 + 2 * i]);
            let p = string_of(&cols[2 + 2 * i]);
            let ghost before = words@;
            let ghost sv = s@;
            let ghost pv = p@;
            assert(sv == sc[1 + 2 * i]);
            assert(pv == sc[2 + 2 * i]);
            words.push((s, p));
            proof {
                assert(words_view(words@) =~= words_view(before).push((sv, pv)));
            }
            i = i + 1;
            proof {
                assert(words_view(words@) =~= Seq::new(i as nat, |j: int| (sc[1 + 2 * j], sc[2 + 2 * j])));
            }
        }
        let key = vec_range(&cols[0], 0, cols[0].len());
        proof {
            assert(cols[0]@.subrange(0, cols[0]@.len() as int) =~= cols[0]@);
        }
        Some((key, words))
    } else {
        None
    }
}

fn parse_dict(text: &str) -> (rows: Vec<DictRow>)
    ensures
        rows_view(rows@) == spec_parse_dict(text@),
        dict_keys_distinct(rows_view(rows@)),
{
    let chars = chars_of(text);
    let parts = split_chars(&chars, '\n');
    proof {
        lemma_split_nonempty(chars@, '\n');
    }
    let n = if parts[parts.len() - 1].len() == 0 { parts.len() - 1 } else { parts.len() };
    let ghost lines = spec_lines(text@);
    assert(lines.len() == n);
    let mut rows: Vec<DictRow> = Vec::new();
    proof {
        assert(rows_view(rows@) =~= spec_dict_from_lines(lines.take(0)));
    }
    let mut i: usize = 0;
    while i < n
        invariant
            i <= n <= parts.len(),
            lines.len() == n,
            forall|j: int| 0 <= j < n ==> #[trigger] parts@[j]@ == lines[j],
            rows_view(rows@) == spec_dict_from_lines(lines.take(i as int)),
        decreases n - i,
    {
        proof {
            assert(lines.take(i as int + 1).drop_last() =~= lines.take(i as int));
            assert(lines.take(i as int + 1).last() == lines[i as int]);
        }
        match dict_line(&parts[i]) {
            Some(kw) => {
                let (k, w) = kw;
                insert_row(&mut rows, k, w);
            },
            None => {},
        }
        i = i + 1;
    }
    proof {
        assert(lines.take(n as int) =~= lines);
        lemma_dict_distinct(lines);
    }
    rows
}

/// The candidates for the words of one reading.
fn word_candidates(reading: &Vec<char>, words: &Vec<(String, String)>) -> (r: Vec<Candidate>)
    ensures
        cands_view(r@) == spec_word_cands(reading@, words_view(words@)),
{
    let rs = string_of(reading);
    let mut out: Vec<Candidate> = Vec::new();
    let mut i: usize = 0;
    while i < words.len()
        invariant
            i <= words.len(),
            rs@ == reading@,
            cands_view(out@) == spec_word_cands(reading@, words_view(words@)).take(i as int),
        decreases words.len() - i,
    {
        let score: i32 = if i <= 2147483647 {
            100 - (i as i32)
        } else {
            i32::MIN
        };
        let c = Candidate {
            surface: words[i].0.clone(),
            reading: rs.clone(),
            pos: Some(words[i].1.clone()),
            score,
            source: CandidateSource::System,
        };
        let ghost before = out@;
        let ghost cv = c@;
        proof {
            assert(words_view(words@)[i as int] == (words@[i as int].0@, words@[i as int].1@));
            assert(cv == spec_word_cands(reading@, words_view(words@))[i as int]);
        }
        out.push(c);
        proof {
            assert(cands_view(out@) =~= cands_view(before).push(cv));
        }
        i = i + 1;
        proof {
            assert(cands_view(out@) =~= spec_word_cands(reading@, words_view(words@)).take(i as int));
        }
    }
    proof {
        assert(spec_word_cands(reading@, words_view(words@)).take(i as int) =~= spec_word_cands(reading@, words_view(words@)));
    }
    out
}

// ------------------------------------------------------------ dictionary

/// A token of morphological analysis.
#[derive(Debug, Clone)]
pub struct Token {
    /// Surface form.
    pub surface: String,
    /// Part of speech.
    pub pos: Option<String>,
    /// Reading.
    pub reading: Option<String>,
    /// Base form.
    pub base_form: Option<String>,
}

/// The system dictionary.
#[derive(Debug)]
pub struct SystemDictionary {
    rows: Vec<DictRow>,
}

impl SystemDictionary {
    #[verifier::type_invariant]
    spec fn inv(self) -> bool {
        &&& rows_view(self.rows@) == system_spec_dict()
        &&& dict_keys_distinct(system_spec_dict())
    }

    /// The dictionary, built from [`SYSTEM_DICT_TEXT`]; never fails.
    pub fn new() -> (r: Result<Self, NukoError>)
        ensures
            r is Ok,
    {
        let rows = parse_dict(SYSTEM_DICT_TEXT);
        Ok(SystemDictionary { rows })
    }

    /// The candidates for a reading: its words in order, scored 100, 99, ...,
    /// with their part of speech; none for an unknown reading. Never fails.
    pub fn lookup(&self, reading: &str) -> (r: Result<Vec<Candidate>, NukoError>)
        ensures
            r is Ok,
            cands_view(r.unwrap()@) == spec_dict_lookup(system_spec_dict(), reading@),
    {
        proof {
            use_type_invariant(self);
        }
        let key = chars_of(reading);
        proof {
            lemma_dict_find_from(rows_view(self.rows@), key@, 0);
        }
        match find_row(&self.rows, &key) {
            Some(i) => {
                proof {
                    assert(rows_view(self.rows@)[i as int] == self.rows@[i as int]@);
                }
                Ok(word_candidates(&self.rows[i].reading, &self.rows[i].words))
            },
            None => {
                let v: Vec<Candidate> = Vec::new();
                proof {
                    assert(cands_view(v@) =~= Seq::<CandidateView>::empty());
                }
                Ok(v)
            },
        }
    }

    /// Readings starting with `prefix`, in ascending order, each with its
    /// candidates. Never fails.
    pub fn prefix_search(&self, prefix: &str) -> (r: Result<Vec<(String, Vec<Candidate>)>, NukoError>)
        ensures
            r is Ok,
            spec_prefix_result(system_spec_dict(), prefix@, prefix_view(r.unwrap()@)),
    {
        proof {
            use_type_invariant(self);
        }
        let ghost t = rows_view(self.rows@);
        let p = chars_of(prefix);
        // indices of matching rows, sorted by reading
        let mut sorted: Vec<usize> = Vec::new();
        let mut k: usize = 0;
        while k < self.rows.len()
            invariant
                k <= self.rows.len(),
                t == rows_view(self.rows@),
                t == system_spec_dict(),
                dict_keys_distinct(t),
                p@ == prefix@,
                forall|a: int| 0 <= a < sorted@.len() ==> #[trigger] sorted@[a] < k,
                forall|a: int| 0 <= a < sorted@.len() ==> spec_starts_with(t[#[trigger] sorted@[a] as int].0, prefix@),
                forall|a: int, b: int| 0 <= a < b < sorted@.len() ==> seq_lt(t[#[trigger] sorted@[a] as int].0, t[#[trigger] sorted@[b] as int].0),
                forall|j: int| 0 <= j < k && spec_starts_with(#[trigger] t[j].0, prefix@) ==> exists|a: int| 0 <= a < sorted@.len() && sorted@[a] == j,
            decreases self.rows.len() - k,
        {
            proof {
                assert(t[k as int] == self.rows@[k as int]@);
            }
            let key = &self.rows[k].reading;
            let matches = key.len() >= p.len() && {
                let head = vec_range(key, 0, p.len());
                chars_eq(&head, &p)
            };
            if matches {
                let mut pos: usize = 0;
                while pos < sorted.len() && !chars_lt(key, &self.rows[sorted[pos]].reading)
                    invariant
                        pos <= sorted.len(),
                        k < self.rows.len(),
                        t == rows_view(self.rows@),
                        key@ == t[k as int].0,
                        forall|a: int| 0 <= a < sorted@.len() ==> #[trigger] sorted@[a] < k,
                        forall|a: int| 0 <= a < pos ==> !seq_lt(t[k as int].0, t[#[trigger] sorted@[a] as int].0),
                    decreases sorted.len() - pos,
                {
                    proof {
                        assert(t[sorted@[pos as int] as int] == self.rows@[sorted@[pos as int] as int]@);
                    }
                    pos = pos + 1;
                }
                proof {
                    if pos < sorted.len() {
                        assert(t[sorted@[pos as int] as int] == self.rows@[sorted@[pos as int] as int]@);
                    }
                    // the elements before `pos` are below the new reading, those after above it
                    assert forall|a: int| 0 <= a < pos implies seq_lt(#[trigger] t[sorted@[a] as int].0, t[k as int].0) by {
                        lemma_seq_lt_total(t[sorted@[a] as int].0, t[k as int].0);
                    }
                    assert forall|a: int| pos <= a < sorted@.len() implies seq_lt(t[k as int].0, #[trigger] t[sorted@[a] as int].0) by {
                        if a > pos {
                            lemma_seq_lt_transitive(t[k as int].0, t[sorted@[pos as int] as int].0, t[sorted@[a] as int].0);
                        }
                    }
                }
                let ghost before = sorted@;
                sorted.insert(pos, k);
                proof {
                    assert(key@.take(prefix@.len() as int) =~= p@);
                    assert forall|a: int, b: int| 0 <= a < b < sorted@.len() implies seq_lt(t[#[trigger] sorted@[a] as int].0, t[#[trigger] sorted@[b] as int].0) by {
                        if b < pos {
                            assert(sorted@[a] == before[a] && sorted@[b] == before[b]);
                        } else if b == pos {
                            assert(sorted@[a] == before[a]);
                        } else if a < pos {
                            assert(sorted@[a] == before[a] && sorted@[b] == before[b - 1]);
                            lemma_seq_lt_transitive(t[before[a] as int].0, t[k as int].0, t[before[b - 1] as int].0);
                        } else if a == pos {
                            assert(sorted@[b] == before[b - 1]);
                        } else {
                            assert(sorted@[a] == before[a - 1] && sorted@[b] == before[b - 1]);
                        }
                    }
                    assert forall|j: int| 0 <= j < k + 1 && spec_starts_with(#[trigger] t[j].0, prefix@) implies exists|a: int| 0 <= a < sorted@.len() && sorted@[a] == j by {
                        if j == k {
                            assert(sorted@[pos as int] == k);
                        } else {
                            let a0 = choose|a: int| 0 <= a < before.len() && before[a] == j;
                            if a0 < pos {
                                assert(sorted@[a0] == j);
                            } else {
                                assert(sorted@[a0 + 1] == j);
                            }
                        }
                    }
                    assert forall|a: int| 0 <= a < sorted@.len() implies spec_starts_with(t[#[trigger] sorted@[a] as int].0, prefix@) by {
                        if a < pos {
                            assert(sorted@[a] == before[a]);
                        } else if a > pos {
                            assert(sorted@[a] == before[a - 1]);
                        }
                    }
                }
            } else {
                proof {
                    if key@.len() >= p@.len() {
                        assert(!(key@.take(p@.len() as int) =~= p@));
                    }
                }
            }
            k = k + 1;
        }
        // build the result in sorted order
        let mut out: Vec<(String, Vec<Candidate>)> = Vec::new();
        let mut a: usize = 0;
        while a < sorted.len()
            invariant
                a <= sorted.len(),
                t == rows_view(self.rows@),
                t == system_spec_dict(),
                dict_keys_distinct(t),
                forall|x: int| 0 <= x < sorted@.len() ==> #[trigger] sorted@[x] < self.rows.len(),
                prefix_view(out@).len() == a,
                forall|x: int| 0 <= x < a ==> (#[trigger] prefix_view(out@)[x]).0 == t[sorted@[x] as int].0,
                forall|x: int| 0 <= x < a ==> (#[trigger] prefix_view(out@)[x]).1 == spec_dict_lookup(t, t[sorted@[x] as int].0),
            decreases sorted.len() - a,
        {
            let idx = sorted[a];
            proof {
                assert(t[idx as int] == self.rows@[idx as int]@);
                lemma_dict_find_unique(t, t[idx as int].0, idx as int);
            }
            let rd = string_of(&self.rows[idx].reading);
            let cs = word_candidates(&self.rows[idx].reading, &self.rows[idx].words);
            let ghost before = out@;
            let ghost item = (rd@, cands_view(cs@));
            out.push((rd, cs));
            proof {
                assert(prefix_view(out@) =~= prefix_view(before).push(item));
            }
            a = a + 1;
        }
        proof {
            let r = prefix_view(out@);
            assert forall|i: int, j: int| 0 <= i < j < r.len() implies seq_lt(#[trigger] r[i].0, #[trigger] r[j].0) by {
            }
            assert forall|i: int| 0 <= i < r.len() implies {
                &&& dict_get(t, #[trigger] r[i].0) is Some
                &&& spec_starts_with(r[i].0, prefix@)
                &&& r[i].1 == spec_dict_lookup(t, r[i].0)
            } by {
                lemma_dict_find_unique(t, t[sorted@[i] as int].0, sorted@[i] as int);
            }
            assert forall|j: int| 0 <= j < t.len() && spec_starts_with(#[trigger] t[j].0, prefix@) implies exists|i: int| 0 <= i < r.len() && r[i].0 == t[j].0 by {
                let a0 = choose|a: int| 0 <= a < sorted@.len() && sorted@[a] == j;
                assert(r[a0].0 == t[j].0);
            }
        }
        Ok(out)
    }

    /// Morphological analysis, which this build does not offer: always the
    /// dictionary error saying so.
    pub fn analyze(&self, text: &str) -> (r: Result<Vec<Token>, NukoError>)
        ensures
            match r {
                Err(NukoError::Dictionary(m)) => m@ == "形態素解析にはlindera featureが必要です"@,
                _ => false,
            },
    {
        Err(NukoError::Dictionary("形態素解析にはlindera featureが必要です".to_string()))
    }

    /// Whether a tokenizer is available: never in this build.
    pub fn has_tokenizer(&self) -> (r: bool)
        ensures
            r == false,
    {
        false
    }

    /// Number of readings in the dictionary.
    pub fn entry_count(&self) -> (r: usize)
        ensures
            r == system_spec_dict().len(),
    {
        proof {
            use_type_invariant(self);
        }
        self.rows.len()
    }
}

/// The view of a prefix search result.
pub open spec fn prefix_view(v: Seq<(String, Vec<Candidate>)>) -> Seq<(Seq<char>, Seq<CandidateView>)> {
    v.map_values(|p: (String, Vec<Candidate>)| (p.0@, cands_view(p.1@)))
}

impl Default for SystemDictionary {
    fn default() -> (r: Self) {
        SystemDictionary { rows: parse_dict(SYSTEM_DICT_TEXT) }
    }
}

} // verus!
