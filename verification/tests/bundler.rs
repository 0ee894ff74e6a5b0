use ariadne_graph::diagnostic::{DiagnosticCollector, WarningCode};
use ariadne_graph::parser::config::bundler::{parse_vite_config, parse_webpack_config, BundlerConfig};

fn vite_config(source: &str) -> Option<BundlerConfig> {
    let mut diag = DiagnosticCollector::new();
    parse_vite_config(source.as_bytes(), "vite.config.ts", &mut diag)
}

fn vite_config_in_dir(source: &str, dir: &str) -> Option<BundlerConfig> {
    let mut diag = DiagnosticCollector::new();
    let path = format!("{}/vite.config.ts", dir);
    parse_vite_config(source.as_bytes(), &path, &mut diag)
}

fn webpack_config(source: &str) -> Option<BundlerConfig> {
    let mut diag = DiagnosticCollector::new();
    parse_webpack_config(source.as_bytes(), "webpack.config.js", &mut diag)
}

// --- Vite: string literal alias ---

#[test]
fn vite_string_literal_alias() {
    let source = r#"
import { defineConfig } from 'vite';
export default defineConfig({
  resolve: {
alias: {
  '@': './src',
  '~': './lib',
}
  }
});
"#;
    let config = vite_config(source).unwrap();
    assert_eq!(config.aliases.get_str("@").unwrap(), "src");
    assert_eq!(config.aliases.get_str("~").unwrap(), "lib");
    assert!(config.modules.is_empty());
}

// --- Vite: fileURLToPath idiom ---

#[test]
fn vite_file_url_to_path_alias() {
    let source = r#"
import { defineConfig } from 'vite';
import { fileURLToPath } from 'url';
export default defineConfig({
  resolve: {
alias: {
  '@': fileURLToPath(new URL('./src', import.meta.url)),
}
  }
});
"#;
    let config = vite_config(source).unwrap();
    assert_eq!(config.aliases.get_str("@").unwrap(), "src");
}

// --- Vite: array form alias ---

#[test]
fn vite_array_form_alias() {
    let source = r#"
import { defineConfig } from 'vite';
export default defineConfig({
  resolve: {
alias: [
  { find: '@', replacement: './src' },
  { find: '~utils', replacement: './src/utils' },
]
  }
});
"#;
    let config = vite_config(source).unwrap();
    assert_eq!(config.aliases.get_str("@").unwrap(), "src");
    assert_eq!(config.aliases.get_str("~utils").unwrap(), "src/utils");
}

// --- Vite: export default without defineConfig ---

#[test]
fn vite_export_default_no_define_config() {
    let source = r#"
export default {
  resolve: {
alias: {
  '@': './src',
}
  }
};
"#;
    let config = vite_config(source).unwrap();
    assert_eq!(config.aliases.get_str("@").unwrap(), "src");
}

// --- Vite: W045 for unrecognized alias ---

#[test]
fn vite_dynamic_alias_emits_w045() {
    let source = r#"
import { defineConfig } from 'vite';
export default defineConfig({
  resolve: {
alias: {
  '@': getAliases(),
}
  }
});
"#;
    let mut diag = DiagnosticCollector::new();
    let config = parse_vite_config(
        source.as_bytes(),
        "vite.config.ts",
        &mut diag,
    );
    // Config may still parse (with empty aliases)
    let report = diag.drain();
    assert!(
        report.warnings.iter().any(|w| w.code == WarningCode::W045DynamicAliasSkipped),
        "expected W045 for dynamic alias"
    );
    if let Some(c) = config {
        assert!(!c.aliases.contains_key("@"));
    }
}

// --- Vite: config in subdirectory ---

#[test]
fn vite_config_in_subdirectory() {
    let source = r#"
import { defineConfig } from 'vite';
export default defineConfig({
  resolve: {
alias: {
  '@': './src',
}
  }
});
"#;
    let config = vite_config_in_dir(source, "packages/app").unwrap();
    assert_eq!(config.config_dir, "packages/app");
    assert_eq!(config.aliases.get_str("@").unwrap(), "packages/app/src");
}

// --- Vite: defineConfig(callback) ---

#[test]
fn vite_define_config_callback() {
    let source = r#"
import { defineConfig } from 'vite';
export default defineConfig(({ mode }) => {
  return {
resolve: {
  alias: {
    '@': './src',
    'shared': './src/shared',
  }
}
  };
});
"#;
    let config = vite_config(source).unwrap();
    assert_eq!(config.aliases.get_str("@").unwrap(), "src");
    assert_eq!(config.aliases.get_str("shared").unwrap(), "src/shared");
}

#[test]
fn vite_define_config_callback_with_type_annotation() {
    let source = r#"
import { defineConfig, UserConfig } from 'vite';
export default defineConfig(({ mode }): UserConfig => {
  return {
resolve: {
  alias: {
    app: './src/app',
  }
}
  };
});
"#;
    let config = vite_config(source).unwrap();
    assert_eq!(config.aliases.get_str("app").unwrap(), "src/app");
}

// --- Vite: template literal with variable prefix ---

#[test]
fn vite_template_literal_alias() {
    let source = r#"
import { defineConfig } from 'vite';
const dirname = '/project';
export default defineConfig({
  resolve: {
alias: {
  app: `${dirname}/src/app`,
  shared: `${dirname}/src/shared`,
}
  }
});
"#;
    let config = vite_config(source).unwrap();
    assert_eq!(config.aliases.get_str("app").unwrap(), "src/app");
    assert_eq!(config.aliases.get_str("shared").unwrap(), "src/shared");
}

// --- Vite: no resolve section ---

#[test]
fn vite_no_resolve_returns_none() {
    let source = r#"
import { defineConfig } from 'vite';
export default defineConfig({
  server: { port: 3000 }
});
"#;
    assert!(vite_config(source).is_none());
}

// --- Webpack: path.resolve alias ---

#[test]
fn webpack_path_resolve_alias() {
    let source = r#"
const path = require('path');
module.exports = {
  resolve: {
alias: {
  '@': path.resolve(__dirname, 'src'),
}
  }
};
"#;
    let config = webpack_config(source).unwrap();
    assert_eq!(config.aliases.get_str("@").unwrap(), "src");
}

// --- Webpack: path.join alias ---

#[test]
fn webpack_path_join_alias() {
    let source = r#"
const path = require('path');
module.exports = {
  resolve: {
alias: {
  '@': path.join(__dirname, 'src'),
}
  }
};
"#;
    let config = webpack_config(source).unwrap();
    assert_eq!(config.aliases.get_str("@").unwrap(), "src");
}

// --- Webpack: __dirname + '/src' ---

#[test]
fn webpack_dirname_concat_alias() {
    let source = r#"
module.exports = {
  resolve: {
alias: {
  '@': __dirname + '/src',
}
  }
};
"#;
    let config = webpack_config(source).unwrap();
    assert_eq!(config.aliases.get_str("@").unwrap(), "src");
}

// --- Webpack: export default (ESM) ---

#[test]
fn webpack_export_default_alias() {
    let source = r#"
export default {
  resolve: {
alias: {
  '@': './src',
}
  }
};
"#;
    let config = webpack_config(source).unwrap();
    assert_eq!(config.aliases.get_str("@").unwrap(), "src");
}

// --- Webpack: resolve.modules ---

#[test]
fn webpack_resolve_modules() {
    let source = r#"
module.exports = {
  resolve: {
modules: ['node_modules', 'src'],
alias: {
  '@': './src',
}
  }
};
"#;
    let config = webpack_config(source).unwrap();
    assert_eq!(config.modules, vec!["node_modules", "src"]);
    assert_eq!(config.aliases.get_str("@").unwrap(), "src");
}

// --- Webpack: W045 for dynamic alias ---

#[test]
fn webpack_dynamic_alias_emits_w045() {
    let source = r#"
module.exports = {
  resolve: {
alias: {
  '@': getAliases(),
}
  }
};
"#;
    let mut diag = DiagnosticCollector::new();
    parse_webpack_config(
        source.as_bytes(),
        "webpack.config.js",
        &mut diag,
    );
    let report = diag.drain();
    assert!(
        report.warnings.iter().any(|w| w.code == WarningCode::W045DynamicAliasSkipped),
        "expected W045 for dynamic alias"
    );
}

// --- Webpack: no alias returns None ---

#[test]
fn webpack_no_alias_returns_none() {
    let source = r#"
module.exports = {
  entry: './src/index.js',
};
"#;
    assert!(webpack_config(source).is_none());
}

// --- Webpack: string literal alias ---

#[test]
fn webpack_string_literal_alias() {
    let source = r#"
module.exports = {
  resolve: {
alias: {
  '@': './src',
  'components': './src/components',
}
  }
};
"#;
    let config = webpack_config(source).unwrap();
    assert_eq!(config.aliases.get_str("@").unwrap(), "src");
    assert_eq!(config.aliases.get_str("components").unwrap(), "src/components");
}

#[test]
fn vite_config_dir_nested_path_joins_backslash_free() {
    let source = r#"
export default {
  resolve: {
    alias: {
      '@': './src',
      'abs': '/opt/shared',
    }
  }
};
"#;
    let config = vite_config_in_dir(source, "web").unwrap();
    assert_eq!(config.aliases.get_str("@").unwrap(), "web/src");
    assert_eq!(config.aliases.get_str("abs").unwrap(), "/opt/shared");
}

#[test]
fn vite_last_alias_entry_wins() {
    let source = r#"
export default {
  resolve: {
    alias: [
      { find: '@', replacement: './a' },
      { find: '@', replacement: './b' },
    ]
  }
};
"#;
    let config = vite_config(source).unwrap();
    assert_eq!(config.aliases.get_str("@").unwrap(), "b");
    assert_eq!(config.aliases.len(), 1);
}

#[test]
fn webpack_modules_only_is_some() {
    let source = r#"
module.exports = {
  resolve: {
    modules: ['node_modules', `lib`],
  }
};
"#;
    let config = webpack_config(source).unwrap();
    assert!(config.aliases.is_empty());
    assert_eq!(config.modules, vec!["node_modules", "lib"]);
}

#[test]
fn webpack_dynamic_alias_only_returns_none_and_warns() {
    let source = r#"
module.exports = {
  resolve: {
    alias: {
      '@': getAliases(),
    }
  }
};
"#;
    let mut diag = DiagnosticCollector::new();
    assert!(parse_webpack_config(source.as_bytes(), "webpack.config.js", &mut diag).is_none());
    assert!(diag.has_code(WarningCode::W045DynamicAliasSkipped));
}
