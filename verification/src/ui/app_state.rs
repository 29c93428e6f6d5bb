//! The screen, and how it changes when something happens.

use crate::domain::error::DomainError;
use crate::domain::recipe::{substitute_views, RecipeView, Substitute, SubstituteView};
use crate::infra::ai::mock::MockLlm;
use crate::infra::ai::ollama::{without_trailing_slashes, OllamaLlm};
use crate::infra::db::database::Database;
use crate::infra::db::laws::{law_deleted_recipe_is_gone, law_list_is_what_can_be_read};
use crate::infra::db::tables::{lemma_position, Tables};
use crate::infra::model_manager::{first_model, format_model_size, format_size, known_models};
use crate::infra::model_manager::{model_by_id, model_size, opt_model, size_text, with_id};
use crate::infra::model_manager::{ModelInfo, ModelInfoView, OLLAMA_BASE_URL};
use crate::text::texts;
use crate::ui::models::{all_model_options, ingredient_model_views, ingredient_models};
use crate::ui::models::{model_option_views, model_options, recipe_model, recipe_model_views};
use crate::ui::models::{recipe_models, substitute_model_views, substitute_models};
use crate::ui::models::{to_ingredient_models, to_recipe_model, to_recipe_models};
use crate::ui::models::{to_substitute_models, IngredientModel, IngredientModelView};
use crate::ui::models::{ModelOptionModel, ModelOptionView, RecipeModel, RecipeModelView};
use crate::ui::models::{SubstituteModel, SubstituteModelView};
use crate::ui::search::search_recipes;
use vstd::prelude::*;

verus! {

/// What the window shows.
#[derive(Debug, Clone, Copy, PartialEq, Eq, Structural)]
pub enum AppView {
    /// The choice of a language model.
    Setup,
    /// The progress of an installation.
    Downloading,
    /// The recipes.
    Main,
    /// One recipe.
    Detail,
    /// All ingredients.
    Stock,
    /// The form for a new recipe.
    AddRecipe,
}

/// All that the window shows, and the language model that is in use.
pub struct AppState {
    pub current_view: AppView,
    pub ollama_running: bool,
    pub status_message: String,
    pub available_models: Vec<ModelOptionModel>,
    pub recipes: Vec<RecipeModel>,
    pub selected_recipe: Option<RecipeModel>,
    pub detail_ingredients: Vec<IngredientModel>,
    pub detail_substitutes: Vec<SubstituteModel>,
    pub stock_ingredients: Vec<IngredientModel>,
    pub download_model_name: String,
    pub download_downloaded_text: String,
    pub download_total_text: String,
    pub llm: Option<OllamaLlm>,
}

/// A model in use: where it is asked and what it is called.
pub struct LlmView {
    pub base_url: Seq<char>,
    pub model: Seq<char>,
}

/// The window as plain values.
pub struct Screen {
    pub current_view: AppView,
    pub ollama_running: bool,
    pub status_message: Seq<char>,
    pub available_models: Seq<ModelOptionView>,
    pub recipes: Seq<RecipeModelView>,
    pub selected_recipe: Option<RecipeModelView>,
    pub detail_ingredients: Seq<IngredientModelView>,
    pub detail_substitutes: Seq<SubstituteModelView>,
    pub stock_ingredients: Seq<IngredientModelView>,
    pub download_model_name: Seq<char>,
    pub download_downloaded_text: Seq<char>,
    pub download_total_text: Seq<char>,
    pub llm: Option<LlmView>,
}

impl View for AppState {
    type V = Screen;

    open spec fn view(&self) -> Screen {
        Screen {
            current_view: self.current_view,
            ollama_running: self.ollama_running,
            status_message: self.status_message@,
            available_models: model_option_views(self.available_models@),
            recipes: recipe_model_views(self.recipes@),
            selected_recipe: match self.selected_recipe {
                Some(m) => Some(m@),
                None => None,
            },
            detail_ingredients: ingredient_model_views(self.detail_ingredients@),
            detail_substitutes: substitute_model_views(self.detail_substitutes@),
            stock_ingredients: ingredient_model_views(self.stock_ingredients@),
            download_model_name: self.download_model_name@,
            download_downloaded_text: self.download_downloaded_text@,
            download_total_text: self.download_total_text@,
            llm: match self.llm {
                Some(l) => Some(LlmView { base_url: l.base_url@, model: l.model@ }),
                None => None,
            },
        }
    }
}

/// The model in use once `info` is.
pub open spec fn llm_of(info: ModelInfoView) -> LlmView {
    LlmView {
        base_url: without_trailing_slashes(OLLAMA_BASE_URL@),
        model: info.ollama_model,
    }
}

/// The window before anything is shown: just the models are there to choose from.
pub open spec fn first_screen(ollama_running: bool) -> Screen {
    Screen {
        current_view: AppView::Setup,
        ollama_running,
        status_message: Seq::empty(),
        available_models: all_model_options(),
        recipes: Seq::empty(),
        selected_recipe: None,
        detail_ingredients: Seq::empty(),
        detail_substitutes: Seq::empty(),
        stock_ingredients: Seq::empty(),
        download_model_name: Seq::empty(),
        download_downloaded_text: Seq::empty(),
        download_total_text: Seq::empty(),
        llm: None,
    }
}

impl Screen {
    /// The window with the given message.
    pub open spec fn saying(self, message: Seq<char>) -> Screen {
        Screen { status_message: message, ..self }
    }

    /// The window in the given view.
    pub open spec fn showing(self, view: AppView) -> Screen {
        Screen { current_view: view, ..self }
    }

    /// The window with the recipes that are stored.
    pub open spec fn refreshed(self, stored: Tables) -> Screen {
        Screen { recipes: recipe_models(stored.list()), ..self }
    }

    /// The window with the ingredients that are stored.
    pub open spec fn stocked(self, stored: Tables) -> Screen {
        Screen { stock_ingredients: ingredient_models(stored.pantry()), ..self }
    }

    /// The window once a model is in use.
    pub open spec fn activated(self, info: ModelInfoView, stored: Tables) -> Screen {
        Screen { llm: Some(llm_of(info)), ..self }.refreshed(stored).stocked(stored).showing(
            AppView::Main,
        )
    }

    /// The window once the installation of a model began.
    pub open spec fn downloading(self, info: ModelInfoView) -> Screen {
        Screen {
            download_model_name: info.name,
            download_downloaded_text: "0 MB"@,
            download_total_text: model_size(info.size_gb_tenths as nat),
            ..self
        }.showing(AppView::Downloading)
    }

    /// The window once it is known how far an installation is.
    pub open spec fn downloaded(self, downloaded: u64, total: u64) -> Screen {
        Screen {
            download_downloaded_text: size_text(downloaded as nat),
            download_total_text: if total > 0 {
                size_text(total as nat)
            } else {
                self.download_total_text
            },
            ..self
        }
    }

    /// The window once Ollama was asked again: a model that is installed is taken into use.
    pub open spec fn retried(
        self,
        running: bool,
        installed: Option<ModelInfoView>,
        stored: Tables,
    ) -> Screen {
        let asked = Screen { ollama_running: running, ..self };
        if !running {
            asked.saying("Ollama がまだ起動していません"@)
        } else {
            match installed {
                Some(info) => asked.activated(info, stored),
                None => asked,
            }
        }
    }

    /// The window with one recipe.
    pub open spec fn detailed(self, recipe: RecipeView, subs: Seq<SubstituteView>) -> Screen {
        Screen {
            selected_recipe: Some(recipe_model(recipe)),
            detail_ingredients: ingredient_models(recipe.ingredients),
            detail_substitutes: substitute_models(subs),
            ..self
        }.showing(AppView::Detail)
    }
}

/// The message of something that went wrong.
pub open spec fn failure_text(lead: Seq<char>, e: DomainError) -> Seq<char> {
    lead + e.detail()
}

impl AppState {
    fn blank(ollama_running: bool) -> (r: Self)
        ensures
            r@ == first_screen(ollama_running),
    {
        let r = AppState {
            current_view: AppView::Setup,
            ollama_running,
            status_message: String::new(),
            available_models: model_options(),
            recipes: Vec::new(),
            selected_recipe: None,
            detail_ingredients: Vec::new(),
            detail_substitutes: Vec::new(),
            stock_ingredients: Vec::new(),
            download_model_name: String::new(),
            download_downloaded_text: String::new(),
            download_total_text: String::new(),
            llm: None,
        };
        proof {
            assert(r@.recipes =~= first_screen(ollama_running).recipes);
            assert(r@.detail_ingredients =~= first_screen(ollama_running).detail_ingredients);
            assert(r@.detail_substitutes =~= first_screen(ollama_running).detail_substitutes);
            assert(r@.stock_ingredients =~= first_screen(ollama_running).stock_ingredients);
        }
        r
    }

    /// The window at the start, where `installed` is the first known model that Ollama has. With
    /// such a model it shows the recipes, and else the choice of a model.
    pub fn start(ollama_running: bool, installed: Option<ModelInfo>, db: &Database) -> (r: Self)
        ensures
            r@ == match opt_model(installed) {
                Some(info) => if ollama_running {
                    first_screen(true).activated(info, db@)
                } else {
                    first_screen(false)
                },
                None => first_screen(ollama_running),
            },
    {
        let mut state = Self::blank(ollama_running);
        if ollama_running {
            if let Some(info) = installed {
                state.activate_llm(&info, db);
            }
        }
        state
    }

    /// Shows the recipes that are stored.
    pub fn refresh_recipes(&mut self, db: &Database)
        ensures
            final(self)@ == old(self)@.refreshed(db@),
    {
        self.recipes = to_recipe_models(&db.list_recipes());
    }

    /// Takes a model into use and shows the recipes.
    pub fn activate_llm(&mut self, info: &ModelInfo, db: &Database)
        ensures
            final(self)@ == old(self)@.activated(info@, db@),
    {
        self.llm = Some(OllamaLlm::new(OLLAMA_BASE_URL, info.ollama_model));
        self.refresh_recipes(db);
        self.stock_ingredients = to_ingredient_models(&db.all_ingredients());
        self.current_view = AppView::Main;
    }

    // -- Models --

    /// Begins the installation of the model `model_id`, if there is one with that id.
    pub fn download_model(&mut self, model_id: &str) -> (r: Option<ModelInfo>)
        ensures
            opt_model(r) == first_model(known_models(), with_id(model_id@)),
            final(self)@ == match opt_model(r) {
                Some(info) => old(self)@.downloading(info),
                None => old(self)@,
            },
    {
        match model_by_id(model_id) {
            Some(info) => {
                self.current_view = AppView::Downloading;
                self.download_model_name = info.name.to_owned();
                self.download_downloaded_text = "0 MB".to_owned();
                self.download_total_text = format_model_size(info.size_gb_tenths);
                Some(info)
            },
            None => None,
        }
    }

    /// Shows how far an installation is.
    pub fn download_progressed(&mut self, downloaded: u64, total: u64)
        ensures
            final(self)@ == old(self)@.downloaded(downloaded, total),
    {
        self.download_downloaded_text = format_size(downloaded);
        if total > 0 {
            self.download_total_text = format_size(total);
        }
    }

    /// Takes a model into use once it is installed, or goes back to the choice of a model if it
    /// could not be installed.
    pub fn download_finished(
        &mut self,
        info: &ModelInfo,
        outcome: Result<(), DomainError>,
        db: &Database,
    )
        ensures
            final(self)@ == match outcome {
                Ok(_) => old(self)@.activated(info@, db@),
                Err(e) => old(self)@.showing(AppView::Setup).saying(
                    failure_text("ダウンロード失敗: "@, e),
                ),
            },
    {
        match outcome {
            Ok(_) => {
                self.activate_llm(info, db);
            },
            Err(e) => {
                self.current_view = AppView::Setup;
                self.status_message = "ダウンロード失敗: ".to_owned().concat(
                    e.into_detail().as_str(),
                );
            },
        }
    }

    /// Takes in whether Ollama runs now, where `installed` is the first known model that it has.
    pub fn retry_ollama(&mut self, running: bool, installed: Option<ModelInfo>, db: &Database)
        ensures
            final(self)@ == old(self)@.retried(running, opt_model(installed), db@),
    {
        self.ollama_running = running;
        if running {
            if let Some(info) = installed {
                self.activate_llm(&info, db);
            }
        } else {
            self.status_message = "Ollama がまだ起動していません".to_owned();
        }
    }

    // -- Recipes --

    /// Shows the recipes that `query` finds, where `by_ingredient` and `by_title` are the recipes
    /// that match.
    pub fn search_changed(
        &mut self,
        query: &str,
        by_ingredient: &Vec<String>,
        by_title: &Vec<String>,
        db: &Database,
    )
        ensures
            final(self)@ == (Screen {
                recipes: recipe_models(
                    db@.shown(query@, texts(by_ingredient@), texts(by_title@)),
                ),
                ..old(self)@
            }),
    {
        self.recipes = to_recipe_models(&search_recipes(db, query, by_ingredient, by_title));
    }

    /// Shows the recipe `id`, if it is stored and not deleted, where `parsed` is what its
    /// substitutes read as.
    pub fn recipe_selected(&mut self, id: &str, parsed: Option<Vec<Substitute>>, db: &Database)
        ensures
            final(self)@ == match db@.get(id@) {
                Some(recipe) => old(self)@.detailed(
                    recipe,
                    match parsed {
                        Some(subs) => if recipe.substitutes_json is Some {
                            substitute_views(subs@)
                        } else {
                            Seq::empty()
                        },
                        None => Seq::empty(),
                    },
                ),
                None => old(self)@,
            },
    {
        if let Some(recipe) = db.get_recipe(id) {
            let subs = recipe.substitutes(parsed);
            proof {
                if subs@.len() == 0 {
                    assert(substitute_views(subs@) =~= Seq::<SubstituteView>::empty());
                }
            }
            self.selected_recipe = Some(to_recipe_model(&recipe));
            self.detail_ingredients = to_ingredient_models(&recipe.ingredients);
            self.detail_substitutes = to_substitute_models(&subs);
            self.current_view = AppView::Detail;
        }
    }

    /// Shows the list again and says that a recipe was deleted.
    pub fn recipe_deleted(&mut self, db: &Database)
        ensures
            final(self)@ == old(self)@.refreshed(db@).saying("レシピを削除しました"@),
    {
        self.refresh_recipes(db);
        self.status_message = "レシピを削除しました".to_owned();
    }

    // -- Views --

    /// Goes back to the recipes.
    pub fn back_pressed(&mut self)
        ensures
            final(self)@ == old(self)@.showing(AppView::Main),
    {
        self.current_view = AppView::Main;
    }

    /// Goes to all ingredients.
    pub fn navigate_stock(&mut self, db: &Database)
        ensures
            final(self)@ == old(self)@.stocked(db@).showing(AppView::Stock),
    {
        self.stock_ingredients = to_ingredient_models(&db.all_ingredients());
        self.current_view = AppView::Stock;
    }

    /// Goes to the recipes.
    pub fn navigate_main(&mut self)
        ensures
            final(self)@ == old(self)@.showing(AppView::Main),
    {
        self.current_view = AppView::Main;
    }

    /// Goes to the form for a new recipe.
    pub fn navigate_add(&mut self)
        ensures
            final(self)@ == old(self)@.showing(AppView::AddRecipe),
    {
        self.current_view = AppView::AddRecipe;
    }

    // -- New recipes --

    /// Says that a recipe is being fetched.
    pub fn add_from_url(&mut self)
        ensures
            final(self)@ == old(self)@.saying("URL からレシピを取得中..."@).showing(AppView::Main),
    {
        self.status_message = "URL からレシピを取得中...".to_owned();
        self.current_view = AppView::Main;
    }

    /// Says that a text is being analysed.
    pub fn add_from_text(&mut self)
        ensures
            final(self)@ == old(self)@.saying("テキストを解析中..."@).showing(AppView::Main),
    {
        self.status_message = "テキストを解析中...".to_owned();
        self.current_view = AppView::Main;
    }

    /// Shows the list again once a recipe was added, or says why none was.
    pub fn import_finished(&mut self, outcome: Result<(), DomainError>, db: &Database)
        ensures
            final(self)@ == match outcome {
                Ok(_) => old(self)@.refreshed(db@).saying("レシピを追加しました!"@),
                Err(e) => old(self)@.saying(failure_text("エラー: "@, e)),
            },
    {
        match outcome {
            Ok(_) => {
                self.refresh_recipes(db);
                self.status_message = "レシピを追加しました!".to_owned();
            },
            Err(e) => {
                self.status_message = "エラー: ".to_owned().concat(e.into_detail().as_str());
            },
        }
    }

    /// Says what is needed to synchronise.
    pub fn sync_pressed(&mut self)
        ensures
            final(self)@ == old(self)@.saying(
                "同期には Google Drive トークンが必要です (STOCLOVE_DRIVE_TOKEN)"@,
            ),
    {
        self.status_message = "同期には Google Drive トークンが必要です (STOCLOVE_DRIVE_TOKEN)".to_owned();
    }
}

// ---------------------------------------------------------------------------
// Who analyses
// ---------------------------------------------------------------------------

/// Who analyses a text.
pub enum Analyst {
    Ollama(OllamaLlm),
    Mock(MockLlm),
}

/// The model in use if there is one, and else the analysis by layout.
pub fn get_llm_or_mock(llm: &Option<OllamaLlm>) -> (r: Analyst)
    ensures
        match llm {
            Some(l) => r is Ollama && r->Ollama_0.base_url@ == l.base_url@ && r->Ollama_0.model@
                == l.model@,
            None => r is Mock,
        },
{
    match llm {
        Some(l) => Analyst::Ollama(
            OllamaLlm { base_url: l.base_url.clone(), model: l.model.clone() },
        ),
        None => Analyst::Mock(MockLlm),
    }
}

// ---------------------------------------------------------------------------
// Laws
// ---------------------------------------------------------------------------

/// Once a recipe was deleted, the list does not show it.
pub proof fn law_deleted_recipe_is_not_shown(
    screen: Screen,
    stored: Tables,
    id: Seq<char>,
    now: i64,
    i: int,
)
    requires
        stored.wf(),
        0 <= i < screen.refreshed(stored.without_recipe(id, now)).recipes.len(),
    ensures
        screen.refreshed(stored.without_recipe(id, now)).recipes[i].id != id,
{
    let after = stored.without_recipe(id, now);
    let recipe = after.list()[i];
    law_deleted_recipe_is_gone(stored, id, now, Seq::empty(), Seq::empty());
    assert(recipe.id != id);
}

/// The list shows every recipe that can be read, and nothing else.
pub proof fn law_list_shows_what_is_stored(screen: Screen, stored: Tables)
    requires
        stored.wf(),
    ensures
        forall|id: Seq<char>| #[trigger]
            stored.get(id) is Some ==> screen.refreshed(stored).recipes.contains(
                recipe_model(stored.get(id)->0),
            ),
        forall|i: int|
            0 <= i < screen.refreshed(stored).recipes.len() ==> ({
                let shown = #[trigger] screen.refreshed(stored).recipes[i];
                stored.get(shown.id) is Some && shown == recipe_model(stored.get(shown.id)->0)
            }),
{
    let shown = screen.refreshed(stored).recipes;
    let all = stored.list();
    assert forall|id: Seq<char>| #[trigger] stored.get(id) is Some implies shown.contains(
        recipe_model(stored.get(id)->0),
    ) by {
        let recipe = stored.get(id)->0;
        lemma_position(stored.recipes, id);
        law_list_is_what_can_be_read(stored, recipe);
        let i = choose|i: int| 0 <= i < all.len() && all[i] == recipe;
        assert(shown[i] == recipe_model(recipe));
    }
    assert forall|i: int| 0 <= i < shown.len() implies ({
        let one = #[trigger] shown[i];
        stored.get(one.id) is Some && one == recipe_model(stored.get(one.id)->0)
    }) by {
        assert(all.contains(all[i]));
        law_list_is_what_can_be_read(stored, all[i]);
        assert(shown[i] == recipe_model(all[i]));
    }
}

/// A message changes nothing but the message, and a view nothing but the view.
pub proof fn law_messages_and_views_change_nothing_else(s: Screen, message: Seq<char>, view: AppView)
    ensures
        s.saying(message).status_message == message,
        s.saying(message).saying(s.status_message) == s,
        s.showing(view).current_view == view,
        s.showing(view).showing(s.current_view) == s,
{
}

/// Showing the list again changes nothing but the list, and showing the stock nothing but the
/// stock.
pub proof fn law_lists_change_nothing_else(s: Screen, stored: Tables)
    ensures
        s.refreshed(stored).recipes == recipe_models(stored.list()),
        (Screen { recipes: s.recipes, ..s.refreshed(stored) }) == s,
        s.stocked(stored).stock_ingredients == ingredient_models(stored.pantry()),
        (Screen { stock_ingredients: s.stock_ingredients, ..s.stocked(stored) }) == s,
{
}

/// Once a model is in use, the window shows the recipes and the stock that are stored, and that
/// model is asked; nothing else changes.
pub proof fn law_a_model_in_use_shows_what_is_stored(s: Screen, info: ModelInfoView, stored: Tables)
    ensures
        ({
            let after = s.activated(info, stored);
            &&& after.current_view == AppView::Main
            &&& after.recipes == recipe_models(stored.list())
            &&& after.stock_ingredients == ingredient_models(stored.pantry())
            &&& after.llm is Some && after.llm->0.model == info.ollama_model
            &&& after.llm->0.base_url == without_trailing_slashes(OLLAMA_BASE_URL@)
            &&& (Screen {
                current_view: s.current_view,
                recipes: s.recipes,
                stock_ingredients: s.stock_ingredients,
                llm: s.llm,
                ..after
            }) == s
        }),
{
}

/// While a model is installed, the window says which and how far it is; nothing else changes.
pub proof fn law_an_installation_shows_how_far_it_is(
    s: Screen,
    info: ModelInfoView,
    downloaded: u64,
    total: u64,
)
    ensures
        ({
            let begun = s.downloading(info);
            &&& begun.current_view == AppView::Downloading
            &&& begun.download_model_name == info.name
            &&& begun.download_downloaded_text == "0 MB"@
            &&& begun.download_total_text == model_size(info.size_gb_tenths as nat)
            &&& (Screen {
                current_view: s.current_view,
                download_model_name: s.download_model_name,
                download_downloaded_text: s.download_downloaded_text,
                download_total_text: s.download_total_text,
                ..begun
            }) == s
        }),
        ({
            let on = s.downloaded(downloaded, total);
            &&& on.download_downloaded_text == size_text(downloaded as nat)
            &&& total > 0 ==> on.download_total_text == size_text(total as nat)
            &&& total == 0 ==> on.download_total_text == s.download_total_text
            &&& (Screen {
                download_downloaded_text: s.download_downloaded_text,
                download_total_text: s.download_total_text,
                ..on
            }) == s
        }),
{
}

/// Asking Ollama again takes an installed model into use, and otherwise changes nothing but
/// whether it runs and, if it does not, the message.
pub proof fn law_asking_again(
    s: Screen,
    running: bool,
    installed: Option<ModelInfoView>,
    stored: Tables,
)
    ensures
        ({
            let after = s.retried(running, installed, stored);
            &&& after.ollama_running == running
            &&& running && installed is Some ==> (Screen {
                ollama_running: s.ollama_running,
                ..after
            }) == s.activated(installed->0, stored)
            &&& running && installed is None ==> (Screen {
                ollama_running: s.ollama_running,
                ..after
            }) == s
            &&& !running ==> after.status_message == "Ollama がまだ起動していません"@ && (Screen {
                ollama_running: s.ollama_running,
                status_message: s.status_message,
                ..after
            }) == s
        }),
{
}

/// One recipe is shown with all its ingredients and substitutes, each as it is; nothing else
/// changes.
pub proof fn law_one_recipe_is_shown_whole(s: Screen, recipe: RecipeView, subs: Seq<SubstituteView>)
    ensures
        ({
            let after = s.detailed(recipe, subs);
            &&& after.current_view == AppView::Detail
            &&& after.selected_recipe == Some(recipe_model(recipe))
            &&& after.detail_ingredients == ingredient_models(recipe.ingredients)
            &&& after.detail_substitutes == substitute_models(subs)
            &&& (Screen {
                current_view: s.current_view,
                selected_recipe: s.selected_recipe,
                detail_ingredients: s.detail_ingredients,
                detail_substitutes: s.detail_substitutes,
                ..after
            }) == s
        }),
{
}

/// At first the window offers the models and shows nothing else.
pub proof fn law_at_first_there_are_just_the_models(running: bool)
    ensures
        ({
            let s = first_screen(running);
            &&& s.current_view == AppView::Setup && s.ollama_running == running && s.llm is None
            &&& s.available_models == all_model_options()
            &&& s.status_message.len() == 0 && s.recipes.len() == 0 && s.selected_recipe is None
            &&& s.detail_ingredients.len() == 0 && s.detail_substitutes.len() == 0
            &&& s.stock_ingredients.len() == 0 && s.download_model_name.len() == 0
            &&& s.download_downloaded_text.len() == 0 && s.download_total_text.len() == 0
        }),
{
}

/// A failure is told in full, behind the words that lead to it.
pub proof fn law_failures_are_told_in_full(lead: Seq<char>, e: DomainError)
    ensures
        failure_text(lead, e) == lead + e.detail(),
{
}

/// The window is seen whole.
pub proof fn law_the_window_is_seen_whole(s: AppState)
    ensures
        s@.current_view == s.current_view && s@.ollama_running == s.ollama_running,
        s@.status_message == s.status_message@,
        s@.download_model_name == s.download_model_name@,
        s@.download_downloaded_text == s.download_downloaded_text@,
        s@.download_total_text == s.download_total_text@,
        s@.recipes.len() == s.recipes@.len(),
        forall|i: int| 0 <= i < s.recipes@.len() ==> #[trigger] s@.recipes[i] == s.recipes@[i]@,
        s@.selected_recipe is Some <==> s.selected_recipe is Some,
        s.selected_recipe matches Some(m) ==> s@.selected_recipe == Some(m@),
        s@.detail_ingredients.len() == s.detail_ingredients@.len(),
        forall|i: int|
            0 <= i < s.detail_ingredients@.len() ==> #[trigger] s@.detail_ingredients[i]
                == s.detail_ingredients@[i]@,
        s@.detail_substitutes.len() == s.detail_substitutes@.len(),
        forall|i: int|
            0 <= i < s.detail_substitutes@.len() ==> #[trigger] s@.detail_substitutes[i]
                == s.detail_substitutes@[i]@,
        s@.stock_ingredients.len() == s.stock_ingredients@.len(),
        forall|i: int|
            0 <= i < s.stock_ingredients@.len() ==> #[trigger] s@.stock_ingredients[i]
                == s.stock_ingredients@[i]@,
        s@.available_models.len() == s.available_models@.len(),
        forall|i: int|
            0 <= i < s.available_models@.len() ==> #[trigger] s@.available_models[i]
                == s.available_models@[i]@,
        s@.llm is Some <==> s.llm is Some,
        s.llm matches Some(l) ==> s@.llm->0.base_url == l.base_url@ && s@.llm->0.model == l.model@,
{
}

} // verus!
