//! Which language handles a file, and what parsing a file gives.
use vstd::prelude::*;

use crate::parser::config::ProjectConfig;
use crate::parser::csharp::{cs_exports_spec, cs_imports_spec, cs_symbols_spec, package_names, CSharpParser, CSharpResolver};
use crate::parser::go::{go_imports_spec, GoParser};
use crate::parser::java::{java_exports_spec, java_imports_spec, java_symbols_spec, JavaParser};
use crate::parser::json_lang::JsonParser;
use crate::parser::markdown::{md_imports_spec, MarkdownParser};
use crate::parser::python::{py_exports_spec, py_imports_spec, py_symbols_spec, PythonParser, PythonResolver};
use crate::parser::rust_lang::{rust_exports_spec, rust_imports_spec, RustParser};
use crate::parser::traits::{
    strings_view,
    exports_view, imports_view, symbols_view, ExportView, ImportView, ParseOutcome, RawExport, RawImport, SymbolDef,
    SymbolView,
};
use crate::parser::typescript::{ts_exports_spec, ts_imports_spec, ts_symbols_spec, TypeScriptParser, TypeScriptResolver};
use crate::parser::yaml::YamlParser;
use crate::syntax::{outcome_of, parse, parsed_as, parses, quality_of, Grammar, ParseQuality, SyntaxTree};
use crate::text::{chars_of, eq, string_of};

verus! {

/// The languages the analysis reads.
#[derive(Clone, Copy, Debug, PartialEq, Eq, Structural)]
pub enum SourceLanguage {
    TypeScript,
    Python,
    Rust,
    Go,
    Java,
    CSharp,
    Markdown,
    Json,
    Yaml,
}

/// The language of files with extension `ext`.
pub open spec fn language_spec(ext: Seq<char>) -> Option<SourceLanguage> {
    if ext == "ts"@ || ext == "tsx"@ || ext == "js"@ || ext == "jsx"@ || ext == "mjs"@ || ext == "cjs"@ {
        Some(SourceLanguage::TypeScript)
    } else if ext == "py"@ || ext == "pyi"@ {
        Some(SourceLanguage::Python)
    } else if ext == "rs"@ {
        Some(SourceLanguage::Rust)
    } else if ext == "go"@ {
        Some(SourceLanguage::Go)
    } else if ext == "java"@ {
        Some(SourceLanguage::Java)
    } else if ext == "cs"@ || ext == "razor"@ {
        Some(SourceLanguage::CSharp)
    } else if ext == "md"@ {
        Some(SourceLanguage::Markdown)
    } else if ext == "json"@ {
        Some(SourceLanguage::Json)
    } else if ext == "yaml"@ || ext == "yml"@ {
        Some(SourceLanguage::Yaml)
    } else {
        None
    }
}

fn is_one_of(e: &Vec<char>, words: &[&str]) -> (r: bool)
    ensures
        r == exists|i: int| 0 <= i < words@.len() && e@ == (#[trigger] words@[i])@,
{
    let mut i: usize = 0;
    while i < words.len()
        invariant
            i <= words@.len(),
            forall|j: int| 0 <= j < i ==> e@ != (#[trigger] words@[j])@,
        decreases words.len() - i,
    {
        if eq(e, &chars_of(words[i])) {
            return true;
        }
        i += 1;
    }
    false
}

/// The language that handles files with extension `ext`, if any.
pub fn language_for_extension(ext: &str) -> (r: Option<SourceLanguage>)
    ensures
        r == language_spec(ext@),
{
    let e = chars_of(ext);
    proof {
        reveal_strlit("ts");
        reveal_strlit("tsx");
        reveal_strlit("js");
        reveal_strlit("jsx");
        reveal_strlit("mjs");
        reveal_strlit("cjs");
        reveal_strlit("py");
        reveal_strlit("pyi");
        reveal_strlit("rs");
        reveal_strlit("go");
        reveal_strlit("java");
        reveal_strlit("cs");
        reveal_strlit("razor");
        reveal_strlit("md");
        reveal_strlit("json");
        reveal_strlit("yaml");
        reveal_strlit("yml");
    }
    let ts = ["ts", "tsx", "js", "jsx", "mjs", "cjs"];
    if is_one_of(&e, &ts) {
        assert(ts@[0]@ == "ts"@ && ts@[1]@ == "tsx"@ && ts@[2]@ == "js"@ && ts@[3]@ == "jsx"@ && ts@[4]@ == "mjs"@
            && ts@[5]@ == "cjs"@);
        return Some(SourceLanguage::TypeScript);
    }
    assert(e@ != "ts"@ && e@ != "tsx"@ && e@ != "js"@ && e@ != "jsx"@ && e@ != "mjs"@ && e@ != "cjs"@) by {
        assert(ts@[0]@ == "ts"@ && ts@[1]@ == "tsx"@ && ts@[2]@ == "js"@ && ts@[3]@ == "jsx"@ && ts@[4]@ == "mjs"@
            && ts@[5]@ == "cjs"@);
    }
    if eq(&e, &chars_of("py")) || eq(&e, &chars_of("pyi")) {
        Some(SourceLanguage::Python)
    } else if eq(&e, &chars_of("rs")) {
        Some(SourceLanguage::Rust)
    } else if eq(&e, &chars_of("go")) {
        Some(SourceLanguage::Go)
    } else if eq(&e, &chars_of("java")) {
        Some(SourceLanguage::Java)
    } else if eq(&e, &chars_of("cs")) || eq(&e, &chars_of("razor")) {
        Some(SourceLanguage::CSharp)
    } else if eq(&e, &chars_of("md")) {
        Some(SourceLanguage::Markdown)
    } else if eq(&e, &chars_of("json")) {
        Some(SourceLanguage::Json)
    } else if eq(&e, &chars_of("yaml")) || eq(&e, &chars_of("yml")) {
        Some(SourceLanguage::Yaml)
    } else {
        None
    }
}

/// Every extension some language handles, in text order, each once.
pub fn supported_extensions() -> (r: Vec<String>)
    ensures
        crate::model::sorted_distinct(crate::parser::config::string_views(r@)),
        forall|e: Seq<char>| #[trigger] crate::parser::config::string_views(r@).contains(e) <==> language_spec(e) is Some,
{
    let all = crate::text::words_of(
        &["ts", "tsx", "js", "jsx", "mjs", "cjs", "py", "pyi", "rs", "go", "java", "cs", "razor", "md", "json", "yaml", "yml"],
    );
    let r = crate::model::sorted_unique(&all);
    proof {
        crate::model::lemma_sorted_set_exists(crate::text::views(all@));
        reveal_strlit("ts");
        reveal_strlit("tsx");
        reveal_strlit("js");
        reveal_strlit("jsx");
        reveal_strlit("mjs");
        reveal_strlit("cjs");
        reveal_strlit("py");
        reveal_strlit("pyi");
        reveal_strlit("rs");
        reveal_strlit("go");
        reveal_strlit("java");
        reveal_strlit("cs");
        reveal_strlit("razor");
        reveal_strlit("md");
        reveal_strlit("json");
        reveal_strlit("yaml");
        reveal_strlit("yml");
        let vs = crate::text::views(all@);
        assert forall|e: Seq<char>| #[trigger] vs.contains(e) <==> language_spec(e) is Some by {
            if language_spec(e) is Some {
                if e == "ts"@ { assert(vs[0] == e); }
                else if e == "tsx"@ { assert(vs[1] == e); }
                else if e == "js"@ { assert(vs[2] == e); }
                else if e == "jsx"@ { assert(vs[3] == e); }
                else if e == "mjs"@ { assert(vs[4] == e); }
                else if e == "cjs"@ { assert(vs[5] == e); }
                else if e == "py"@ { assert(vs[6] == e); }
                else if e == "pyi"@ { assert(vs[7] == e); }
                else if e == "rs"@ { assert(vs[8] == e); }
                else if e == "go"@ { assert(vs[9] == e); }
                else if e == "java"@ { assert(vs[10] == e); }
                else if e == "cs"@ { assert(vs[11] == e); }
                else if e == "razor"@ { assert(vs[12] == e); }
                else if e == "md"@ { assert(vs[13] == e); }
                else if e == "json"@ { assert(vs[14] == e); }
                else if e == "yaml"@ { assert(vs[15] == e); }
                else { assert(vs[16] == e); }
            }
        }
    }
    r
}

/// The grammar a language parses files with extension `ext` with.
pub open spec fn grammar_spec(lang: SourceLanguage, ext: Seq<char>) -> Grammar {
    match lang {
        SourceLanguage::TypeScript => if ext == "tsx"@ || ext == "jsx"@ {
            Grammar::Tsx
        } else {
            Grammar::TypeScript
        },
        SourceLanguage::Python => Grammar::Python,
        SourceLanguage::Rust => Grammar::Rust,
        SourceLanguage::Go => Grammar::Go,
        SourceLanguage::Java => Grammar::Java,
        SourceLanguage::CSharp => Grammar::CSharp,
        SourceLanguage::Markdown => Grammar::Markdown,
        SourceLanguage::Json => Grammar::Json,
        SourceLanguage::Yaml => Grammar::Yaml,
    }
}

/// `grammar_spec`.
pub fn grammar_for(lang: SourceLanguage, ext: &str) -> (r: Grammar)
    ensures
        r == grammar_spec(lang, ext@),
{
    match lang {
        SourceLanguage::TypeScript => TypeScriptParser::new().grammar_for_ext(ext),
        SourceLanguage::Python => Grammar::Python,
        SourceLanguage::Rust => Grammar::Rust,
        SourceLanguage::Go => Grammar::Go,
        SourceLanguage::Java => Grammar::Java,
        SourceLanguage::CSharp => Grammar::CSharp,
        SourceLanguage::Markdown => Grammar::Markdown,
        SourceLanguage::Json => Grammar::Json,
        SourceLanguage::Yaml => Grammar::Yaml,
    }
}

/// The text of an optional name.
pub open spec fn str_opt_view(o: Option<&str>) -> Option<Seq<char>> {
    match o {
        Some(s) => Some(s@),
        None => None,
    }
}

/// What the language's extractors read from tree `t`: its imports, exports
/// and symbols (languages without an extractor for a part give none); Rust
/// imports are read for the crate named `crate_name`, if known.
pub open spec fn extracted(
    lang: SourceLanguage,
    crate_name: Option<Seq<char>>,
    t: &SyntaxTree,
    imports: Seq<ImportView>,
    exports: Seq<ExportView>,
    symbols: Seq<SymbolView>,
) -> bool {
    match lang {
        SourceLanguage::TypeScript => imports == ts_imports_spec(t) && exports == ts_exports_spec(t) && symbols
            == ts_symbols_spec(t),
        SourceLanguage::Python => imports == py_imports_spec(t) && exports == py_exports_spec(t) && symbols == py_symbols_spec(
            t,
        ),
        SourceLanguage::Rust => imports == rust_imports_spec(t, crate_name) && exports == rust_exports_spec(t) && symbols.len()
            == 0,
        SourceLanguage::Go => imports == go_imports_spec(t) && exports.len() == 0 && symbols.len() == 0,
        SourceLanguage::Java => imports == java_imports_spec(t) && exports == java_exports_spec(t) && symbols
            == java_symbols_spec(t),
        SourceLanguage::CSharp => imports == cs_imports_spec(t) && exports == cs_exports_spec(t) && symbols
            == cs_symbols_spec(t),
        SourceLanguage::Markdown => imports == md_imports_spec(t) && exports.len() == 0 && symbols.len() == 0,
        SourceLanguage::Json | SourceLanguage::Yaml => imports.len() == 0 && exports.len() == 0 && symbols.len() == 0,
    }
}

/// The outcome `r` of parsing a file of language `lang` into tree `t`:
/// failed, partial or clean as [`quality_of`] rates the tree, with what
/// the extractors read when it did not fail.
pub open spec fn outcome_matches(lang: SourceLanguage, crate_name: Option<Seq<char>>, t: &SyntaxTree, r: ParseOutcome) -> bool {
    match quality_of(t) {
        ParseQuality::Failed => r is Failed,
        ParseQuality::Partial => r matches ParseOutcome::Partial(i, e, s) && extracted(
            lang,
            crate_name,
            t,
            imports_view(i@),
            exports_view(e@),
            symbols_view(s@),
        ),
        ParseQuality::Clean => r matches ParseOutcome::Clean(i, e, s) && extracted(
            lang,
            crate_name,
            t,
            imports_view(i@),
            exports_view(e@),
            symbols_view(s@),
        ),
    }
}

/// Run the language's extractors on a tree.
fn extract(lang: SourceLanguage, crate_name: Option<&str>, t: &SyntaxTree) -> (r: (Vec<RawImport>, Vec<RawExport>, Vec<SymbolDef>))
    ensures
        extracted(lang, str_opt_view(crate_name), t, imports_view(r.0@), exports_view(r.1@), symbols_view(r.2@)),
{
    match lang {
        SourceLanguage::TypeScript => {
            let p = TypeScriptParser::new();
            (p.extract_imports(t), p.extract_exports(t), p.extract_symbols(t))
        },
        SourceLanguage::Python => {
            let p = PythonParser::new();
            (p.extract_imports(t), p.extract_exports(t), p.extract_symbols(t))
        },
        SourceLanguage::Rust => {
            let name = match crate_name {
                Some(n) => Some(string_of(&chars_of(n))),
                None => None,
            };
            let p = RustParser::with_crate_name(name);
            let i = p.extract_imports(t);
            let e = p.extract_exports(t);
            (i, e, Vec::new())
        },
        SourceLanguage::Go => {
            let p = GoParser::new();
            let i = p.extract_imports(t);
            (i, Vec::new(), Vec::new())
        },
        SourceLanguage::Java => {
            let p = JavaParser::new();
            (p.extract_imports(t), p.extract_exports(t), p.extract_symbols(t))
        },
        SourceLanguage::CSharp => {
            let p = CSharpParser::new();
            (p.extract_imports(t), p.extract_exports(t), p.extract_symbols(t))
        },
        SourceLanguage::Markdown => {
            let p = MarkdownParser::new();
            let i = p.extract_imports(t);
            (i, Vec::new(), Vec::new())
        },
        SourceLanguage::Json | SourceLanguage::Yaml => (Vec::new(), Vec::new(), Vec::new()),
    }
}

/// Parse the source of a file of language `lang` with extension `ext`:
/// failed when there is no well-formed tree or more than half of the
/// top-level nodes are errors; otherwise partial when some are, clean when
/// none is, with the imports, exports and symbols the language reads (Rust
/// imports for the crate named `crate_name`, if known).
pub fn parse_source(lang: SourceLanguage, ext: &str, source: &[u8], crate_name: Option<&str>) -> (r: ParseOutcome)
    ensures
        !parses(grammar_spec(lang, ext@), source@) ==> r is Failed,
        parses(grammar_spec(lang, ext@), source@) ==> exists|t: SyntaxTree|
            #[trigger] parsed_as(grammar_spec(lang, ext@), source@, t) && outcome_matches(lang, str_opt_view(crate_name), &t, r),
{
    let g = grammar_for(lang, ext);
    let t = match parse(g, source) {
        Some(t) => t,
        None => return ParseOutcome::Failed,
    };
    let q = outcome_of(&t);
    let r = match q {
        ParseQuality::Failed => ParseOutcome::Failed,
        ParseQuality::Partial => {
            let (i, e, s) = extract(lang, crate_name, &t);
            ParseOutcome::Partial(i, e, s)
        },
        ParseQuality::Clean => {
            let (i, e, s) = extract(lang, crate_name, &t);
            ParseOutcome::Clean(i, e, s)
        },
    };
    assert(parsed_as(g, source@, t) && outcome_matches(lang, str_opt_view(crate_name), &t, r));
    r
}

/// The imports of a file's source, as the language reads them: `None` when
/// there is no well-formed tree; the tree's errors do not matter here.
pub fn reparse_imports(lang: SourceLanguage, ext: &str, source: &[u8], crate_name: Option<&str>) -> (r: Option<Vec<RawImport>>)
    ensures
        r is Some <==> parses(grammar_spec(lang, ext@), source@),
        r matches Some(i) ==> exists|t: SyntaxTree|
            #[trigger] parsed_as(grammar_spec(lang, ext@), source@, t) && extracted_imports(lang, str_opt_view(crate_name), &t, imports_view(i@)),
{
    let g = grammar_for(lang, ext);
    let t = match parse(g, source) {
        Some(t) => t,
        None => return None,
    };
    let (i, _, _) = extract(lang, crate_name, &t);
    assert(parsed_as(g, source@, t) && extracted_imports(lang, str_opt_view(crate_name), &t, imports_view(i@)));
    Some(i)
}

/// The imports part of [`extracted`].
pub open spec fn extracted_imports(lang: SourceLanguage, crate_name: Option<Seq<char>>, t: &SyntaxTree, imports: Seq<ImportView>) -> bool {
    match lang {
        SourceLanguage::TypeScript => imports == ts_imports_spec(t),
        SourceLanguage::Python => imports == py_imports_spec(t),
        SourceLanguage::Rust => imports == rust_imports_spec(t, crate_name),
        SourceLanguage::Go => imports == go_imports_spec(t),
        SourceLanguage::Java => imports == java_imports_spec(t),
        SourceLanguage::CSharp => imports == cs_imports_spec(t),
        SourceLanguage::Markdown => imports == md_imports_spec(t),
        SourceLanguage::Json | SourceLanguage::Yaml => imports.len() == 0,
    }
}

/// The import resolvers of a project, set up from what discovery found.
pub struct ProjectResolvers {
    pub typescript: TypeScriptResolver,
    pub python: PythonResolver,
    pub csharp: CSharpResolver,
    /// The Go module path `go.mod` declares, when found.
    pub go_module: Option<String>,
}

/// Set up the resolvers from a project's configuration: the tsconfig
/// aliases for TypeScript when there are any, the pyproject configuration
/// for Python, the `.csproj` projects for C# when there are any, and the
/// module path of `go.mod` for Go.
pub fn resolvers_for(config: ProjectConfig) -> (r: ProjectResolvers)
    ensures
        config.ts_configs.spec_entries().len() == 0 ==> r.typescript.ts_configs is None,
        config.ts_configs.spec_entries().len() > 0 ==> r.typescript.ts_configs == Some(config.ts_configs),
        r.typescript.bundler_configs is None,
        r.python.config == config.py_config,
        r.csharp.csproj_configs.spec_entries() == config.csproj_configs.spec_entries(),
        strings_view(r.csharp.known_packages@) == package_names(config.csproj_configs.spec_entries()),
        match config.go_config {
            Some(g) => r.go_module matches Some(m) && m@ == g.module@,
            None => r.go_module is None,
        },
{
    let ProjectConfig { ts_configs, go_config, py_config, csproj_configs, .. } = config;
    let typescript = TypeScriptResolver::new().with_ts_configs(ts_configs);
    let python = match py_config {
        Some(c) => PythonResolver::with_config(c),
        None => PythonResolver::new(),
    };
    let csharp = if csproj_configs.is_empty() {
        let c = CSharpResolver::new();
        proof {
            assert(package_names(csproj_configs.spec_entries()) =~= Seq::<Seq<char>>::empty()) by {
                reveal_with_fuel(package_names, 2);
            }
            assert(strings_view(c.known_packages@) =~= Seq::<Seq<char>>::empty());
            assert(c.csproj_configs.spec_entries() =~= csproj_configs.spec_entries());
        }
        c
    } else {
        let c0 = CSharpResolver::new();
        proof {
            assert(strings_view(c0.known_packages@) =~= Seq::<Seq<char>>::empty());
        }
        c0.with_csproj_configs(csproj_configs)
    };
    let go_module = match go_config {
        Some(g) => Some(g.module),
        None => None,
    };
    ProjectResolvers { typescript, python, csharp, go_module }
}

} // verus!
