use ariadne_graph::diagnostic::{DiagnosticCollector, WarningCode};
use ariadne_graph::parser::config::csproj::{parse_csproj, parse_sln, parse_sln_project_line};

#[test]
fn test_parse_sln_basic() {
    let mut diag = DiagnosticCollector::new();
    let content = r#"
Microsoft Visual Studio Solution File, Format Version 12.00
# Visual Studio Version 17
Project("{FAE04EC0-301F-11D3-BF4B-00C04F79EFBC}") = "MyApp.Core", "src\MyApp.Core\MyApp.Core.csproj", "{GUID1}"
EndProject
Project("{FAE04EC0-301F-11D3-BF4B-00C04F79EFBC}") = "MyApp.Web", "src\MyApp.Web\MyApp.Web.csproj", "{GUID2}"
EndProject
Global
EndGlobal
"#;
    let sln = parse_sln(content, "MyApp.sln", &mut diag).expect("should parse valid .sln");
    assert_eq!(sln.projects.len(), 2);
    assert_eq!(sln.projects[0].name, "MyApp.Core");
    assert_eq!(sln.projects[0].relative_path, "src/MyApp.Core/MyApp.Core.csproj");
    assert_eq!(sln.projects[1].name, "MyApp.Web");
    assert_eq!(sln.projects[1].relative_path, "src/MyApp.Web/MyApp.Web.csproj");
}

#[test]
fn test_parse_sln_filters_solution_folders() {
    let mut diag = DiagnosticCollector::new();
    let content = r#"
Microsoft Visual Studio Solution File, Format Version 12.00
Project("{FAE04EC0-301F-11D3-BF4B-00C04F79EFBC}") = "MyApp", "src\MyApp\MyApp.csproj", "{GUID1}"
EndProject
Project("{2150E333-8FDC-42A3-9474-1A3956D46DE8}") = "Solution Items", "Solution Items", "{GUID2}"
EndProject
"#;
    let sln = parse_sln(content, "Test.sln", &mut diag).expect("should parse .sln and filter folders");
    assert_eq!(sln.projects.len(), 1);
    assert_eq!(sln.projects[0].name, "MyApp");
}

#[test]
fn test_parse_sln_empty() {
    let mut diag = DiagnosticCollector::new();
    let content = r#"
Microsoft Visual Studio Solution File, Format Version 12.00
Global
EndGlobal
"#;
    let sln = parse_sln(content, "Empty.sln", &mut diag).expect("should parse empty .sln");
    assert!(sln.projects.is_empty());
}

#[test]
fn sln_folder_guid_case_insensitive() {
    let mut diag = DiagnosticCollector::new();
    let content = "Project(\"{2150e333-8fdc-42a3-9474-1a3956d46de8}\") = \"Items\", \"Items\", \"{G}\"\n";
    let sln = parse_sln(content, "x.sln", &mut diag).unwrap();
    assert!(sln.projects.is_empty());
}

#[test]
fn test_parse_csproj_basic() {
    let mut diag = DiagnosticCollector::new();
    let content = r#"<Project Sdk="Microsoft.NET.Sdk">
  <PropertyGroup>
    <TargetFramework>net8.0</TargetFramework>
    <RootNamespace>MyApp.Core</RootNamespace>
    <AssemblyName>MyApp.Core</AssemblyName>
  </PropertyGroup>
  <ItemGroup>
    <ProjectReference Include="..\MyApp.Data\MyApp.Data.csproj" />
  </ItemGroup>
  <ItemGroup>
    <PackageReference Include="Newtonsoft.Json" Version="13.0.3" />
    <PackageReference Include="Serilog" Version="3.1.1" />
  </ItemGroup>
</Project>"#;
    let config = parse_csproj(content, "src/MyApp.Core/MyApp.Core.csproj", &mut diag)
        .expect("should parse valid csproj");
    assert_eq!(config.target_framework.as_deref(), Some("net8.0"));
    assert_eq!(config.root_namespace.as_deref(), Some("MyApp.Core"));
    assert_eq!(config.assembly_name.as_deref(), Some("MyApp.Core"));
    assert_eq!(config.project_references.len(), 1);
    assert_eq!(config.project_references[0].path, "../MyApp.Data/MyApp.Data.csproj");
    assert_eq!(config.package_references.len(), 2);
    assert_eq!(config.package_references[0].name, "Newtonsoft.Json");
    assert_eq!(config.package_references[0].version.as_deref(), Some("13.0.3"));
    assert_eq!(config.package_references[1].name, "Serilog");
}

#[test]
fn csproj_directory_and_resolved_reference() {
    let mut diag = DiagnosticCollector::new();
    let content = r#"<Project><ItemGroup><ProjectReference Include="..\MyApp.Data\MyApp.Data.csproj" /></ItemGroup></Project>"#;
    let config = parse_csproj(content, "src/MyApp.Core/MyApp.Core.csproj", &mut diag).unwrap();
    assert_eq!(config.project_dir, "src/MyApp.Core");
    assert_eq!(config.project_path, "src/MyApp.Core/MyApp.Core.csproj");
    assert_eq!(
        config.project_references[0].resolved_path.as_deref(),
        Some("src/MyApp.Data/MyApp.Data.csproj")
    );
    assert!(!diag.has_code(WarningCode::W034CsprojParseError));
}

#[test]
fn test_parse_csproj_minimal() {
    let mut diag = DiagnosticCollector::new();
    let content = r#"<Project Sdk="Microsoft.NET.Sdk">
  <PropertyGroup>
    <TargetFramework>net6.0</TargetFramework>
  </PropertyGroup>
</Project>"#;
    let config = parse_csproj(content, "MyApp.csproj", &mut diag).expect("should parse minimal csproj");
    assert_eq!(config.target_framework.as_deref(), Some("net6.0"));
    assert!(config.root_namespace.is_none());
    assert!(config.assembly_name.is_none());
    assert!(config.project_references.is_empty());
    assert!(config.package_references.is_empty());
}

#[test]
fn test_parse_csproj_malformed() {
    let mut diag = DiagnosticCollector::new();
    let content = "this is not xml at all < > & broken";
    let result = parse_csproj(content, "bad.csproj", &mut diag);
    assert!(result.is_none());
    let report = diag.drain();
    assert!(report.warnings.iter().any(|w| w.code == WarningCode::W034CsprojParseError));
}

#[test]
fn test_parse_csproj_project_references() {
    let mut diag = DiagnosticCollector::new();
    let content = r#"<Project Sdk="Microsoft.NET.Sdk">
  <PropertyGroup>
    <TargetFramework>net8.0</TargetFramework>
  </PropertyGroup>
  <ItemGroup>
    <ProjectReference Include="..\Lib1\Lib1.csproj" />
    <ProjectReference Include="..\Lib2\Lib2.csproj" />
    <ProjectReference Include="..\..\Shared\Shared.csproj" />
  </ItemGroup>
</Project>"#;
    let config = parse_csproj(content, "src/App/App.csproj", &mut diag)
        .expect("should parse csproj with multiple project references");
    assert_eq!(config.project_references.len(), 3);
    assert_eq!(config.project_references[0].path, "../Lib1/Lib1.csproj");
    assert_eq!(config.project_references[1].path, "../Lib2/Lib2.csproj");
    assert_eq!(config.project_references[2].path, "../../Shared/Shared.csproj");
}

#[test]
fn test_parse_csproj_package_references() {
    let mut diag = DiagnosticCollector::new();
    let content = r#"<Project Sdk="Microsoft.NET.Sdk">
  <PropertyGroup>
    <TargetFramework>net8.0</TargetFramework>
  </PropertyGroup>
  <ItemGroup>
    <PackageReference Include="MediatR" Version="12.1.1" />
    <PackageReference Include="AutoMapper" />
  </ItemGroup>
</Project>"#;
    let config = parse_csproj(content, "App.csproj", &mut diag).expect("should parse package references");
    assert_eq!(config.package_references.len(), 2);
    assert_eq!(config.package_references[0].name, "MediatR");
    assert_eq!(config.package_references[0].version.as_deref(), Some("12.1.1"));
    assert_eq!(config.package_references[1].name, "AutoMapper");
    assert!(config.package_references[1].version.is_none());
}

#[test]
fn test_parse_csproj_target_frameworks_semicolon() {
    let mut diag = DiagnosticCollector::new();
    let content = r#"<Project Sdk="Microsoft.NET.Sdk">
  <PropertyGroup>
    <TargetFrameworks>net6.0;net7.0;net8.0</TargetFrameworks>
  </PropertyGroup>
</Project>"#;
    let config = parse_csproj(content, "Multi.csproj", &mut diag).expect("should parse multi-target frameworks");
    assert_eq!(config.target_framework.as_deref(), Some("net6.0"));
}

#[test]
fn parse_sln_rejects_text_that_is_no_solution() {
    let mut diag = DiagnosticCollector::new();
    let sln = parse_sln("not a solution", "x.sln", &mut diag);
    assert!(sln.is_none());
    assert!(diag.has_code(WarningCode::W035SlnParseError));
}

#[test]
fn parse_sln_header_alone_is_a_solution() {
    let mut diag = DiagnosticCollector::new();
    let sln = parse_sln("Microsoft Visual Studio Solution File, Format Version 12.00\n", "x.sln", &mut diag);
    assert!(sln.unwrap().projects.is_empty());
    assert!(!diag.has_code(WarningCode::W035SlnParseError));
}

#[test]
fn sln_line_of_another_shape_gives_no_project() {
    let line: Vec<char> = "EndProject".chars().collect();
    assert!(parse_sln_project_line(&line).is_none());
    let ok: Vec<char> =
        "Project(\"{FAE04EC0}\") = \"Api\", \"src\\Api\\Api.csproj\", \"{1234}\"".chars().collect();
    let e = parse_sln_project_line(&ok).unwrap();
    assert_eq!(e.name, "Api");
    assert_eq!(e.relative_path, "src/Api/Api.csproj");
}
