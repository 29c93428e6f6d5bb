//! The language models that can be installed.

use crate::infra::json::{all_nodes, get_items, get_number, get_text, items_member, json_nodes};
use crate::infra::json::{json_read, number_member, parse_json, text_member, JsonNode, JsonStep};
use crate::number::{decimal, digit, push_decimal};
use crate::text::{lemma_texts_push, same_text, texts};
use vstd::prelude::*;

verus! {

/// Where Ollama is expected.
pub const OLLAMA_BASE_URL: &'static str = "http://localhost:11434";

/// A language model that can be installed. Its size is in tenths of a gigabyte.
#[derive(Debug, Clone, Copy)]
pub struct ModelInfo {
    pub id: &'static str,
    pub name: &'static str,
    pub description: &'static str,
    pub size_gb_tenths: u64,
    pub speed_label: &'static str,
    pub accuracy_label: &'static str,
    pub recommended: bool,
    /// What Ollama calls the model, such as `llama3.2:3b`.
    pub ollama_model: &'static str,
}

/// A model as plain values.
pub struct ModelInfoView {
    pub id: Seq<char>,
    pub name: Seq<char>,
    pub description: Seq<char>,
    pub size_gb_tenths: u64,
    pub speed_label: Seq<char>,
    pub accuracy_label: Seq<char>,
    pub recommended: bool,
    pub ollama_model: Seq<char>,
}

impl View for ModelInfo {
    type V = ModelInfoView;

    open spec fn view(&self) -> ModelInfoView {
        ModelInfoView {
            id: self.id@,
            name: self.name@,
            description: self.description@,
            size_gb_tenths: self.size_gb_tenths,
            speed_label: self.speed_label@,
            accuracy_label: self.accuracy_label@,
            recommended: self.recommended,
            ollama_model: self.ollama_model@,
        }
    }
}

/// The models of a list as plain values.
pub open spec fn model_views(v: Seq<ModelInfo>) -> Seq<ModelInfoView> {
    v.map_values(|m: ModelInfo| m@)
}

/// The models that can be installed.
pub open spec fn known_models() -> Seq<ModelInfoView> {
    seq![
        ModelInfoView {
            id: "gemma3-1b"@,
            name: "Gemma 3 1B"@,
            description: "軽量・高速。シンプルなレシピなら十分な精度。\n低スペックPCでも快適に動作します。"@,
            size_gb_tenths: 8,
            speed_label: "高速"@,
            accuracy_label: "△"@,
            recommended: false,
            ollama_model: "gemma3:1b"@,
        },
        ModelInfoView {
            id: "llama32-3b"@,
            name: "Llama 3.2 3B  ★推奨"@,
            description: "精度と速度のバランスが良く、多言語対応も優秀。\nほとんどのレシピを正確に解析できます。"@,
            size_gb_tenths: 20,
            speed_label: "普通"@,
            accuracy_label: "○"@,
            recommended: true,
            ollama_model: "llama3.2:3b"@,
        },
        ModelInfoView {
            id: "mistral-7b"@,
            name: "Mistral 7B"@,
            description: "高精度。複雑なレシピや多言語テキストに強い。\n高スペックPC向け (RAM 8GB 以上推奨)。"@,
            size_gb_tenths: 41,
            speed_label: "低速"@,
            accuracy_label: "◎"@,
            recommended: false,
            ollama_model: "mistral:7b"@,
        },
    ]
}

/// The models that can be installed, in the order in which they are offered.
pub fn available_models() -> (r: Vec<ModelInfo>)
    ensures
        model_views(r@) == known_models(),
{
    let mut r: Vec<ModelInfo> = Vec::new();
    r.push(
        ModelInfo {
            id: "gemma3-1b",
            name: "Gemma 3 1B",
            description: "軽量・高速。シンプルなレシピなら十分な精度。\n低スペックPCでも快適に動作します。",
            size_gb_tenths: 8,
            speed_label: "高速",
            accuracy_label: "△",
            recommended: false,
            ollama_model: "gemma3:1b",
        },
    );
    r.push(
        ModelInfo {
            id: "llama32-3b",
            name: "Llama 3.2 3B  ★推奨",
            description: "精度と速度のバランスが良く、多言語対応も優秀。\nほとんどのレシピを正確に解析できます。",
            size_gb_tenths: 20,
            speed_label: "普通",
            accuracy_label: "○",
            recommended: true,
            ollama_model: "llama3.2:3b",
        },
    );
    r.push(
        ModelInfo {
            id: "mistral-7b",
            name: "Mistral 7B",
            description: "高精度。複雑なレシピや多言語テキストに強い。\n高スペックPC向け (RAM 8GB 以上推奨)。",
            size_gb_tenths: 41,
            speed_label: "低速",
            accuracy_label: "◎",
            recommended: false,
            ollama_model: "mistral:7b",
        },
    );
    assert(model_views(r@) =~= known_models());
    r
}

/// The first of the models that `p` holds of.
pub open spec fn first_model(
    models: Seq<ModelInfoView>,
    p: spec_fn(ModelInfoView) -> bool,
) -> Option<ModelInfoView>
    decreases models.len(),
{
    if models.len() == 0 {
        None
    } else if p(models[0]) {
        Some(models[0])
    } else {
        first_model(models.drop_first(), p)
    }
}

proof fn lemma_first_model_at(
    models: Seq<ModelInfoView>,
    p: spec_fn(ModelInfoView) -> bool,
    k: int,
)
    requires
        0 <= k <= models.len(),
        forall|j: int| 0 <= j < k ==> !p(#[trigger] models[j]),
        k < models.len() ==> p(models[k]),
    ensures
        first_model(models, p) == if k < models.len() {
            Some(models[k])
        } else {
            None
        },
    decreases k,
{
    if k > 0 {
        assert(!p(models[0]));
        let t = models.drop_first();
        assert forall|j: int| 0 <= j < k - 1 implies !p(#[trigger] t[j]) by {
            assert(t[j] == models[j + 1]);
        }
        lemma_first_model_at(t, p, k - 1);
    }
}

/// A model or none, as plain values.
pub open spec fn opt_model(o: Option<ModelInfo>) -> Option<ModelInfoView> {
    match o {
        Some(m) => Some(m@),
        None => None,
    }
}

/// Holds of the model with the given id.
pub open spec fn with_id(id: Seq<char>) -> spec_fn(ModelInfoView) -> bool {
    |m: ModelInfoView| m.id == id
}

/// Holds of the models that are among the installed ones.
pub open spec fn among(names: Seq<Seq<char>>) -> spec_fn(ModelInfoView) -> bool {
    |m: ModelInfoView| names.contains(m.ollama_model)
}

/// The model with the given id.
pub fn model_by_id(id: &str) -> (r: Option<ModelInfo>)
    ensures
        opt_model(r) == first_model(known_models(), with_id(id@)),
{
    let models = available_models();
    let ghost all = known_models();
    let ghost p = with_id(id@);
    let mut i: usize = 0;
    while i < models.len()
        invariant
            i <= models@.len(),
            model_views(models@) == all,
            all == known_models(),
            p == with_id(id@),
            forall|j: int| 0 <= j < i ==> !p(#[trigger] all[j]),
        decreases models@.len() - i,
    {
        assert(all[i as int] == models@[i as int]@);
        if same_text(models[i].id, id) {
            proof {
                lemma_first_model_at(all, p, i as int);
            }
            return Some(models[i]);
        }
        i += 1;
    }
    proof {
        assert(all.len() == models@.len());
        lemma_first_model_at(all, p, i as int);
    }
    None
}

fn names_hold(names: &Vec<String>, name: &str) -> (r: bool)
    ensures
        r == texts(names@).contains(name@),
{
    let mut i: usize = 0;
    while i < names.len()
        invariant
            i <= names@.len(),
            forall|j: int| 0 <= j < i ==> #[trigger] texts(names@)[j] != name@,
        decreases names@.len() - i,
    {
        if same_text(names[i].as_str(), name) {
            assert(texts(names@)[i as int] == name@);
            return true;
        }
        i += 1;
    }
    false
}

/// The first known model that is among the installed ones.
pub fn installed_model(names: &Vec<String>) -> (r: Option<ModelInfo>)
    ensures
        opt_model(r) == first_model(known_models(), among(texts(names@))),
{
    let models = available_models();
    let ghost all = known_models();
    let ghost p = among(texts(names@));
    let mut i: usize = 0;
    while i < models.len()
        invariant
            i <= models@.len(),
            model_views(models@) == all,
            all == known_models(),
            p == among(texts(names@)),
            forall|j: int| 0 <= j < i ==> !p(#[trigger] all[j]),
        decreases models@.len() - i,
    {
        assert(all[i as int] == models@[i as int]@);
        if names_hold(names, models[i].ollama_model) {
            proof {
                lemma_first_model_at(all, p, i as int);
            }
            return Some(models[i]);
        }
        i += 1;
    }
    proof {
        assert(all.len() == models@.len());
        lemma_first_model_at(all, p, i as int);
    }
    None
}

/// The names in a list of JSON values: what each has under `name`, where that is a text.
pub open spec fn names_in(items: Seq<Map<Seq<JsonStep>, JsonNode>>) -> Seq<Seq<char>>
    decreases items.len(),
{
    if items.len() == 0 {
        Seq::empty()
    } else {
        match text_member(items.last(), "name"@) {
            Some(name) => names_in(items.drop_last()).push(name),
            None => names_in(items.drop_last()),
        }
    }
}

/// The names of the installed models in Ollama's reply.
pub open spec fn listed_names(resp: Map<Seq<JsonStep>, JsonNode>) -> Seq<Seq<char>> {
    match items_member(resp, "models"@) {
        Some(items) => names_in(items),
        None => Seq::empty(),
    }
}

fn model_names(resp: &serde_json::Value) -> (r: Vec<String>)
    ensures
        texts(r@) == listed_names(json_nodes(*resp)),
{
    let mut names: Vec<String> = Vec::new();
    assert(texts(names@) =~= Seq::<Seq<char>>::empty());
    match get_items(resp, "models") {
        Some(items) => {
            let ghost all = all_nodes(items@);
            let mut i: usize = 0;
            assert(all.take(0) =~= Seq::empty());
            while i < items.len()
                invariant
                    i <= items@.len(),
                    all == all_nodes(items@),
                    texts(names@) == names_in(all.take(i as int)),
                decreases items@.len() - i,
            {
                proof {
                    assert(all.take(i + 1).drop_last() =~= all.take(i as int));
                    assert(all.take(i + 1).last() == json_nodes(items@[i as int]));
                }
                if let Some(name) = get_text(&items[i], "name") {
                    proof {
                        lemma_texts_push(names@, name);
                    }
                    names.push(name);
                }
                i += 1;
            }
            assert(all.take(items@.len() as int) =~= all);
        },
        None => {},
    }
    names
}

/// The first known model among those that Ollama's reply lists as installed.
pub fn find_installed_model(resp: &serde_json::Value) -> (r: Option<ModelInfo>)
    ensures
        opt_model(r) == first_model(known_models(), among(listed_names(json_nodes(*resp)))),
{
    installed_model(&model_names(resp))
}

/// Where Ollama lists its models.
pub fn tags_url(base_url: &str) -> (r: String)
    ensures
        r@ == base_url@ + "/api/tags"@,
{
    base_url.to_owned().concat("/api/tags")
}

/// Where Ollama is asked to install a model.
pub fn pull_url(base_url: &str) -> (r: String)
    ensures
        r@ == base_url@ + "/api/pull"@,
{
    base_url.to_owned().concat("/api/pull")
}

/// The time limit of a request, in seconds; none if zero is given.
pub fn client_timeout(timeout_secs: u64) -> (r: Option<u64>)
    ensures
        r == if timeout_secs == 0 {
            None
        } else {
            Some(timeout_secs)
        },
{
    if timeout_secs == 0 {
        None
    } else {
        Some(timeout_secs)
    }
}

// ---------------------------------------------------------------------------
// Installing a model
// ---------------------------------------------------------------------------

/// How far an installation is: the bytes that came, the bytes that are to come in all, and
/// whether Ollama said that it is done.
#[derive(Debug, Clone, Copy)]
pub struct PullProgress {
    pub downloaded: u64,
    pub total: u64,
    pub done: bool,
}

impl PullProgress {
    /// How far it is once a report came: what the report leaves out stays as it was.
    pub open spec fn reported(
        self,
        completed: Option<u64>,
        total: Option<u64>,
        status: Option<Seq<char>>,
    ) -> PullProgress {
        PullProgress {
            downloaded: match completed {
                Some(c) => c,
                None => self.downloaded,
            },
            total: match total {
                Some(t) => t,
                None => self.total,
            },
            done: self.done || status == Some("success"@),
        }
    }

    /// How far it is once a line came: a line that is no JSON value says nothing.
    pub open spec fn behind_line(self, line: Seq<char>) -> PullProgress {
        if line.len() == 0 {
            self
        } else {
            match json_read(line) {
                Some(nodes) => self.reported(
                    number_member(nodes, "completed"@),
                    number_member(nodes, "total"@),
                    text_member(nodes, "status"@),
                ),
                None => self,
            }
        }
    }

    /// An installation of which nothing is known yet.
    pub fn start() -> (r: Self)
        ensures
            r == (PullProgress { downloaded: 0, total: 0, done: false }),
    {
        PullProgress { downloaded: 0, total: 0, done: false }
    }

    /// Takes in a report.
    pub fn report(&mut self, completed: Option<u64>, total: Option<u64>, status: Option<String>)
        ensures
            *final(self) == old(self).reported(
                completed,
                total,
                crate::domain::recipe::opt_text(status),
            ),
    {
        if let Some(c) = completed {
            self.downloaded = c;
        }
        if let Some(t) = total {
            self.total = t;
        }
        if let Some(s) = status {
            if same_text(s.as_str(), "success") {
                self.done = true;
            }
        }
    }

    /// Takes in a line of Ollama's reply.
    pub fn read_line(&mut self, line: &str)
        ensures
            *final(self) == old(self).behind_line(line@),
    {
        if line.is_empty() {
            return;
        }
        if let Some(v) = parse_json(line) {
            let completed: Option<u64> = get_number(&v, "completed");
            let total: Option<u64> = get_number(&v, "total");
            let status = get_text(&v, "status");
            self.report(completed, total, status);
        }
    }
}

// ---------------------------------------------------------------------------
// Sizes
// ---------------------------------------------------------------------------

/// `n / d` rounded to the nearest integer, to the even one if two are equally near.
pub open spec fn half_even(n: nat, d: nat) -> nat {
    let q = n / d;
    let r = n % d;
    if 2 * r < d || (2 * r == d && q % 2 == 0) {
        q
    } else {
        q + 1
    }
}

/// The distance of the double-precision numbers around `n`, where `n` has more than 53 bits; one
/// if it has not.
pub open spec fn spacing(n: nat) -> nat
    decreases n,
{
    if n < 0x20_0000_0000_0000 {
        1
    } else {
        2 * spacing(n / 2)
    }
}

/// The double-precision number nearest to `n`.
pub open spec fn nearest_double(n: nat) -> nat {
    half_even(n, spacing(n)) * spacing(n)
}

/// A number of hundredths with two decimals.
pub open spec fn two_decimals(h: nat) -> Seq<char> {
    decimal(h / 100).push('.').push(digit((h / 10 % 10) as int)).push(digit((h % 10) as int))
}

/// A number of bytes as it is shown: in gigabytes with two decimals, or in whole megabytes if it
/// is less than one gigabyte.
pub open spec fn size_text(bytes: nat) -> Seq<char> {
    let x = nearest_double(bytes);
    if bytes == 0 {
        "---"@
    } else if x >= 0x4000_0000 {
        two_decimals(half_even(x * 100, 0x4000_0000)) + " GB"@
    } else {
        decimal(half_even(x, 0x10_0000)) + " MB"@
    }
}

fn round_half_even(n: u128, d: u128) -> (r: u128)
    requires
        0 < d <= 0x1_0000_0000_0000_0000,
        n <= 0x1000_0000_0000_0000_0000_0000_0000_0000,
    ensures
        r == half_even(n as nat, d as nat),
{
    let q: u128 = n / d;
    let r: u128 = n % d;
    assert(q <= n) by (nonlinear_arith)
        requires
            q == n / d,
            d > 0,
    ;
    if 2 * r < d || (2 * r == d && q % 2 == 0) {
        q
    } else {
        q + 1
    }
}

fn double_spacing(n: u64) -> (r: u64)
    ensures
        r == spacing(n as nat),
        1 <= r <= 0x800,
    decreases n,
{
    if n < 0x20_0000_0000_0000 {
        1
    } else {
        let half = double_spacing(n / 2);
        proof {
            vstd::arithmetic::power2::lemma2_to64();
            lemma_spacing_bound((n / 2) as nat, 10);
        }
        2 * half
    }
}

proof fn lemma_spacing_bound(n: nat, k: nat)
    requires
        n < 0x20_0000_0000_0000 * vstd::arithmetic::power2::pow2(k),
    ensures
        1 <= spacing(n) <= vstd::arithmetic::power2::pow2(k),
    decreases k,
{
    vstd::arithmetic::power2::lemma_pow2_pos(k);
    if n >= 0x20_0000_0000_0000 {
        if k == 0 {
            vstd::arithmetic::power2::lemma2_to64();
        } else {
            vstd::arithmetic::power2::lemma_pow2_unfold(k);
            lemma_spacing_bound(n / 2, (k - 1) as nat);
        }
    }
}

/// A number of bytes as it is shown.
pub fn format_size(bytes: u64) -> (r: String)
    ensures
        r@ == size_text(bytes as nat),
{
    if bytes == 0 {
        return "---".to_owned();
    }
    let gap: u128 = double_spacing(bytes) as u128;
    let steps: u128 = round_half_even(bytes as u128, gap);
    assert(steps <= bytes + 1) by {
        assert(bytes as nat / gap as nat <= bytes) by (nonlinear_arith)
            requires
                gap >= 1,
        ;
    }
    assert(steps * gap <= 0x1_0000_0000_0000_0001 * 0x800) by (nonlinear_arith)
        requires
            steps <= 0x1_0000_0000_0000_0000,
            gap <= 0x800,
    ;
    let x: u128 = steps * gap;
    let mut out = String::new();
    if x >= 0x4000_0000 {
        let h: u128 = round_half_even(x * 100, 0x4000_0000);
        assert(h <= 0xffff_ffff_ffff_ffff);
        let hundredths: u64 = h as u64;
        push_decimal(&mut out, hundredths / 100);
        out.push('.');
        push_decimal(&mut out, hundredths / 10 % 10);
        push_decimal(&mut out, hundredths % 10);
        out.append(" GB");
        assert(out@ =~= size_text(bytes as nat));
    } else {
        let mb: u128 = round_half_even(x, 0x10_0000);
        push_decimal(&mut out, mb as u64);
        out.append(" MB");
        assert(out@ =~= size_text(bytes as nat));
    }
    out
}

/// The size of a model as it is shown: in gigabytes with one decimal.
pub open spec fn model_size(tenths: nat) -> Seq<char> {
    decimal(tenths / 10).push('.').push(digit((tenths % 10) as int)) + " GB"@
}

/// The size of a model as it is shown.
pub fn format_model_size(tenths: u64) -> (r: String)
    ensures
        r@ == model_size(tenths as nat),
{
    let mut out = String::new();
    push_decimal(&mut out, tenths / 10);
    out.push('.');
    push_decimal(&mut out, tenths % 10);
    out.append(" GB");
    assert(out@ =~= model_size(tenths as nat));
    out
}

/// Every id on offer belongs to just one model, and so does every name that Ollama knows.
pub proof fn law_models_are_told_apart(i: int, j: int)
    requires
        0 <= i < j < known_models().len(),
    ensures
        known_models()[i].id != known_models()[j].id,
        known_models()[i].ollama_model != known_models()[j].ollama_model,
{
    reveal_strlit("gemma3-1b");
    reveal_strlit("llama32-3b");
    reveal_strlit("mistral-7b");
    reveal_strlit("gemma3:1b");
    reveal_strlit("llama3.2:3b");
    reveal_strlit("mistral:7b");
    assert("gemma3-1b"@[0] != "llama32-3b"@[0]);
    assert("gemma3-1b"@[0] != "mistral-7b"@[0]);
    assert("llama32-3b"@[0] != "mistral-7b"@[0]);
    assert("gemma3:1b"@[0] != "llama3.2:3b"@[0]);
    assert("gemma3:1b"@[0] != "mistral:7b"@[0]);
    assert("llama3.2:3b"@[0] != "mistral:7b"@[0]);
}

/// Reports that leave a number out do not change it, and what is done stays done.
pub proof fn law_progress_is_kept(
    p: PullProgress,
    completed: Option<u64>,
    total: Option<u64>,
    status: Option<Seq<char>>,
)
    ensures
        completed is None ==> p.reported(completed, total, status).downloaded == p.downloaded,
        total is None ==> p.reported(completed, total, status).total == p.total,
        p.done ==> p.reported(completed, total, status).done,
{
}

/// A model is found by its id, and an id that none has finds none.
pub proof fn law_models_are_found_by_their_ids(id: Seq<char>)
    ensures
        forall|i: int|
            0 <= i < known_models().len() ==> first_model(
                known_models(),
                with_id(#[trigger] known_models()[i].id),
            ) == Some(known_models()[i]),
        (forall|i: int| 0 <= i < known_models().len() ==> (#[trigger] known_models()[i]).id != id)
            ==> first_model(known_models(), with_id(id)) is None,
{
    let all = known_models();
    assert forall|i: int| 0 <= i < all.len() implies first_model(
        all,
        with_id(#[trigger] all[i].id),
    ) == Some(all[i]) by {
        let p = with_id(all[i].id);
        assert forall|j: int| 0 <= j < i implies !p(#[trigger] all[j]) by {
            law_models_are_told_apart(j, i);
        }
        lemma_first_model_at(all, p, i);
    }
    if forall|i: int| 0 <= i < all.len() ==> (#[trigger] all[i]).id != id {
        lemma_first_model_at(all, with_id(id), all.len() as int);
    }
}

/// Of the known models the first whose name is among the installed ones is found, whatever else is
/// installed, and none if no name is.
pub proof fn law_the_first_installed_model_is_found(names: Seq<Seq<char>>, k: int)
    requires
        0 <= k <= known_models().len(),
        forall|j: int|
            0 <= j < k ==> !names.contains((#[trigger] known_models()[j]).ollama_model),
        k < known_models().len() ==> names.contains(known_models()[k].ollama_model),
    ensures
        first_model(known_models(), among(names)) == if k < known_models().len() {
            Some(known_models()[k])
        } else {
            None
        },
{
    lemma_first_model_at(known_models(), among(names), k);
}

/// Of the listed models each name counts that is a text, in order.
pub proof fn law_every_listed_name_counts(
    items: Seq<Map<Seq<JsonStep>, JsonNode>>,
    item: Map<Seq<JsonStep>, JsonNode>,
)
    ensures
        names_in(items.push(item)) == match text_member(item, "name"@) {
            Some(name) => names_in(items).push(name),
            None => names_in(items),
        },
        names_in(Seq::empty()) == Seq::<Seq<char>>::empty(),
{
    assert(items.push(item).drop_last() =~= items);
}

/// The installed models are those that the reply lists as its models.
pub proof fn law_the_reply_lists_the_models(resp: Map<Seq<JsonStep>, JsonNode>)
    ensures
        items_member(resp, "models"@) matches Some(items) ==> listed_names(resp) == names_in(items),
        items_member(resp, "models"@) is None ==> listed_names(resp).len() == 0,
{
}

/// A report sets what it tells, and an installation is done once and for all with the word for it.
pub proof fn law_reports_set_what_they_tell(
    p: PullProgress,
    completed: Option<u64>,
    total: Option<u64>,
    status: Option<Seq<char>>,
)
    ensures
        completed matches Some(c) ==> p.reported(completed, total, status).downloaded == c,
        total matches Some(t) ==> p.reported(completed, total, status).total == t,
        p.reported(completed, total, Some("success"@)).done,
        !p.done && status != Some("success"@) ==> !p.reported(completed, total, status).done,
{
}

/// A line that is empty or no JSON value says nothing, and any other says what its members do.
pub proof fn law_lines_say_what_their_members_do(p: PullProgress, line: Seq<char>)
    ensures
        line.len() == 0 ==> p.behind_line(line) == p,
        json_read(line) is None ==> p.behind_line(line) == p,
        line.len() > 0 && json_read(line) is Some ==> p.behind_line(line) == p.reported(
            number_member(json_read(line)->0, "completed"@),
            number_member(json_read(line)->0, "total"@),
            text_member(json_read(line)->0, "status"@),
        ),
{
}

/// Rounding goes to the nearest, and to the even one of two that are equally near.
pub proof fn law_rounding_goes_to_the_nearest(n: nat, d: nat)
    requires
        d > 0,
    ensures
        2 * (half_even(n, d) * d) <= 2 * n + d,
        2 * n <= 2 * (half_even(n, d) * d) + d,
        2 * (half_even(n, d) * d) == 2 * n + d || 2 * n == 2 * (half_even(n, d) * d) + d
            ==> half_even(n, d) % 2 == 0,
{
    let q = n / d;
    let r = n % d;
    vstd::arithmetic::div_mod::lemma_fundamental_div_mod(n as int, d as int);
    vstd::arithmetic::div_mod::lemma_mod_bound(n as int, d as int);
    assert(q * d == d * q) by (nonlinear_arith);
    assert((q + 1) * d == q * d + d) by (nonlinear_arith);
}

/// Numbers of up to fifty-three bits are shown exactly, and larger ones as the nearest multiple of
/// a power of two that keeps fifty-three bits.
pub proof fn law_small_numbers_are_exact(n: nat)
    ensures
        n < 0x20_0000_0000_0000 ==> nearest_double(n) == n,
        n >= 0x20_0000_0000_0000 ==> spacing(n) == 2 * spacing(n / 2),
        2 * nearest_double(n) <= 2 * n + spacing(n),
        2 * n <= 2 * nearest_double(n) + spacing(n),
{
    lemma_spacing_positive(n);
    law_rounding_goes_to_the_nearest(n, spacing(n));
    if n < 0x20_0000_0000_0000 {
        vstd::arithmetic::div_mod::lemma_div_basics(n as int);
        assert(n % 1 == 0);
    }
}

proof fn lemma_spacing_positive(n: nat)
    ensures
        spacing(n) > 0,
    decreases n,
{
    if n >= 0x20_0000_0000_0000 {
        lemma_spacing_positive(n / 2);
    }
}

proof fn lemma_spacing_at_most(n: nat)
    requires
        n > 0,
    ensures
        spacing(n) <= n,
    decreases n,
{
    if n >= 0x20_0000_0000_0000 {
        lemma_spacing_at_most(n / 2);
    }
}

/// A size is shown in gigabytes with two decimals from one gigabyte on, in whole megabytes below,
/// and as a dash if there is nothing.
pub proof fn law_sizes_have_a_unit(bytes: nat)
    ensures
        size_text(0) == "---"@,
        0 < bytes < 0x4000_0000 ==> size_text(bytes) == decimal(half_even(bytes, 1024 * 1024))
            + " MB"@,
        0x4000_0000 <= bytes ==> ({
            let h = half_even(nearest_double(bytes) * 100, 1024 * 1024 * 1024);
            size_text(bytes) == decimal(h / 100) + seq!['.'] + seq![
                (0x30 + h / 10 % 10) as char,
                (0x30 + h % 10) as char,
            ] + " GB"@
        }),
{
    law_small_numbers_are_exact(bytes);
    if bytes > 0 {
        lemma_spacing_at_most(bytes);
    }
    let h = half_even(nearest_double(bytes) * 100, 1024 * 1024 * 1024);
    assert(two_decimals(h) =~= decimal(h / 100) + seq!['.'] + seq![
        (0x30 + h / 10 % 10) as char,
        (0x30 + h % 10) as char,
    ]);
}

/// The size of a model is shown in gigabytes with one decimal.
pub proof fn law_model_sizes_have_one_decimal(whole: nat, tenth: nat)
    requires
        tenth < 10,
    ensures
        model_size(whole * 10 + tenth) == decimal(whole) + seq!['.', (0x30 + tenth) as char]
            + " GB"@,
{
    assert((whole * 10 + tenth) / 10 == whole && (whole * 10 + tenth) % 10 == tenth);
    assert(decimal(whole).push('.').push(digit(tenth as int)) =~= decimal(whole) + seq![
        '.',
        (0x30 + tenth) as char,
    ]);
}

} // verus!
