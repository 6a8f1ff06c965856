use vstd::prelude::*;

verus! {

/// The text of the PowerShell translator.
pub const TRANSLATION_SCRIPT: &'static str = r#"
param(
  [Parameter(Mandatory = $true)][string]$TargetLanguage,
  [Parameter(Mandatory = $true)][string]$WordsPath
)

$ErrorActionPreference = "Stop"
$ProgressPreference = "SilentlyContinue"
[Net.ServicePointManager]::SecurityProtocol = [Net.SecurityProtocolType]::Tls12
$utf8 = [Text.UTF8Encoding]::new($false)
[Console]::OutputEncoding = $utf8
$headers = @{
  "Accept" = "application/json"
  "User-Agent" = "YujieReader/1.4"
}

$words = @(
  Get-Content -LiteralPath $WordsPath |
    ForEach-Object { $_.Trim() } |
    Where-Object { $_.Length -gt 0 } |
    Select-Object -Unique
)
if ($words.Count -eq 0) {
  exit 0
}

$nonce = [Guid]::NewGuid().ToString("N").Substring(0, 12).ToUpperInvariant()
$prefix = "__YJW_${nonce}_"
$script:result = [ordered]@{}
$script:edgeRateLimited = $false
$script:googleRateLimited = $false
$script:myMemoryRateLimited = $false
$script:providerUnavailable = $false
$entries = [Collections.Generic.List[object]]::new()

for ($index = 0; $index -lt $words.Count; $index += 1) {
  $id = "{0:D3}" -f $index
  $word = [string]$words[$index]
  $entries.Add([pscustomobject]@{
    Word = $word
    Start = "${prefix}S_${id}__"
    End = "${prefix}E_${id}__"
  })
}

function Add-Translation {
  param([string]$Word, [string]$Value)
  $clean = [Net.WebUtility]::HtmlDecode([string]$Value)
  $clean = ($clean -replace "[\r\n\t]+", " ").Trim()
  if (
    [string]::IsNullOrWhiteSpace($clean) -or
    $clean -match "^(MYMEMORY WARNING|INVALID TARGET LANGUAGE|QUERY LENGTH LIMIT)"
  ) {
    return $false
  }
  $script:result[$Word] = $clean
  return $true
}

function Get-EdgeLanguage {
  $edgeLanguage = $TargetLanguage
  if ($edgeLanguage -eq "mn") {
    return "mn-Cyrl"
  }
  if ($edgeLanguage -eq "no") {
    return "nb"
  }
  if ($edgeLanguage -eq "sr") {
    return "sr-Cyrl"
  }
  if ($edgeLanguage -eq "ny") {
    return "nya"
  }
  if ($edgeLanguage -eq "zh-TW") {
    return "zh-Hant"
  }
  if ($edgeLanguage -eq "pt-BR") {
    return "pt"
  }
  if ($edgeLanguage -eq "pt-PT") {
    return "pt-pt"
  }
  if ($edgeLanguage -in @("jav", "su", "ceb", "tg", "om")) {
    return ""
  }
  return $edgeLanguage
}

function Invoke-EdgeBatches {
  param([object[]]$Items)
  $edgeLanguage = Get-EdgeLanguage
  if ($Items.Count -eq 0 -or [string]::IsNullOrWhiteSpace($edgeLanguage)) {
    return
  }
  try {
    $token = [string](Invoke-RestMethod `
      -Uri "https://edge.microsoft.com/translate/auth" `
      -Method Get `
      -Headers $headers `
      -TimeoutSec 8)
    if ([string]::IsNullOrWhiteSpace($token)) {
      $script:providerUnavailable = $true
      return
    }
  } catch {
    $statusCode = 0
    if ($null -ne $_.Exception.Response) {
      try {
        $statusCode = [int]$_.Exception.Response.StatusCode
      } catch {
        $statusCode = 0
      }
    }
    if ($statusCode -eq 429) {
      $script:edgeRateLimited = $true
    } else {
      $script:providerUnavailable = $true
    }
    return
  }

  for ($offset = 0; $offset -lt $Items.Count; $offset += 25) {
    $last = [Math]::Min($offset + 24, $Items.Count - 1)
    $batch = @($Items[$offset..$last])
    $texts = @(
      $batch |
        ForEach-Object { [pscustomobject]@{ Text = $_.Word } }
    )
    $body = ConvertTo-Json -InputObject $texts -Compress
    try {
      $rawResponse = Invoke-RestMethod `
        -Uri (
          "https://api-edge.cognitive.microsofttranslator.com/translate" +
          "?api-version=3.0&from=en&to=" +
          [Uri]::EscapeDataString($edgeLanguage)
        ) `
        -Method Post `
        -Headers @{
          "Authorization" = "Bearer $token"
          "X-ClientTraceId" = [Guid]::NewGuid().ToString()
        } `
        -ContentType "application/json; charset=UTF-8" `
        -Body ([Text.Encoding]::UTF8.GetBytes($body)) `
        -TimeoutSec 8
      $response = @($rawResponse)
      $limit = [Math]::Min($batch.Count, $response.Count)
      for ($index = 0; $index -lt $limit; $index += 1) {
        $value = [string]$response[$index].translations[0].text
        if (-not [string]::IsNullOrWhiteSpace($value)) {
          [void](Add-Translation -Word $batch[$index].Word -Value $value)
        }
      }
    } catch {
      $statusCode = 0
      if ($null -ne $_.Exception.Response) {
        try {
          $statusCode = [int]$_.Exception.Response.StatusCode
        } catch {
          $statusCode = 0
        }
      }
      if ($statusCode -eq 429) {
        $script:edgeRateLimited = $true
      } else {
        $script:providerUnavailable = $true
      }
      return
    }
  }
}

function Invoke-MyMemoryBatch {
  param([object[]]$Items)
  if ($Items.Count -eq 0) {
    return $true
  }
  $payload = (($Items | ForEach-Object { $_.Word }) -join " | ")
  try {
    $uri = "https://api.mymemory.translated.net/get?q=" +
      [Uri]::EscapeDataString($payload) +
      "&langpair=en%7C" +
      [Uri]::EscapeDataString($TargetLanguage)
    $response = Invoke-RestMethod `
      -Uri $uri `
      -Method Get `
      -Headers $headers `
      -TimeoutSec 8
    $responseStatus = [int]$response.responseStatus
    $translated = [Net.WebUtility]::HtmlDecode(
      [string]$response.responseData.translatedText
    )
    if (
      $responseStatus -eq 429 -or
      [string]$response.quotaFinished -eq "True" -or
      $translated -match "^MYMEMORY WARNING"
    ) {
      $script:myMemoryRateLimited = $true
      return $false
    }
    if (
      $responseStatus -ne 200 -or
      [string]::IsNullOrWhiteSpace($translated) -or
      $translated -match "^(INVALID TARGET LANGUAGE|QUERY LENGTH LIMIT)"
    ) {
      $script:providerUnavailable = $true
      return $false
    }
    $parts = @($translated -split "\|")
    if ($parts.Count -ne $Items.Count) {
      $script:providerUnavailable = $true
      return $false
    }
    $pending = [ordered]@{}
    for ($index = 0; $index -lt $Items.Count; $index += 1) {
      $value = ($parts[$index] -replace "[\r\n\t]+", " ").Trim()
      if (
        [string]::IsNullOrWhiteSpace($value) -or
        $value -match "^(MYMEMORY WARNING|INVALID TARGET LANGUAGE|QUERY LENGTH LIMIT)"
      ) {
        continue
      }
      $pending[$Items[$index].Word] = $value
    }
    foreach ($translation in $pending.GetEnumerator()) {
      [void](Add-Translation -Word $translation.Key -Value $translation.Value)
    }
    return $pending.Count -gt 0
  } catch {
    $statusCode = 0
    if ($null -ne $_.Exception.Response) {
      try {
        $statusCode = [int]$_.Exception.Response.StatusCode
      } catch {
        $statusCode = 0
      }
    }
    if ($statusCode -eq 429) {
      $script:myMemoryRateLimited = $true
    } else {
      $script:providerUnavailable = $true
    }
    return $false
  }
}

function Invoke-MyMemoryBatches {
  param([object[]]$Items)
  $current = [Collections.Generic.List[object]]::new()
  foreach ($item in $Items) {
    $candidateWords = @($current | ForEach-Object { $_.Word }) + @($item.Word)
    $candidate = ($candidateWords -join " | ")
    if (
      $current.Count -gt 0 -and
      [Text.Encoding]::UTF8.GetByteCount($candidate) -gt 420
    ) {
      [void](Invoke-MyMemoryBatch -Items $current.ToArray())
      $current.Clear()
    }
    $current.Add($item)
  }
  if ($current.Count -gt 0) {
    [void](Invoke-MyMemoryBatch -Items $current.ToArray())
  }
}

function Get-TokenCount {
  param([string]$Text, [string]$Token)
  $count = 0
  $offset = 0
  while ($offset -le $Text.Length) {
    $found = $Text.IndexOf($Token, $offset, [StringComparison]::Ordinal)
    if ($found -lt 0) {
      break
    }
    $count += 1
    $offset = $found + $Token.Length
  }
  return $count
}

function Invoke-GoogleProvider {
  param([string]$Payload)
  $googleLanguage = $TargetLanguage
  if ($googleLanguage -eq "jav") {
    $googleLanguage = "jw"
  } elseif ($googleLanguage -eq "fil") {
    $googleLanguage = "tl"
  } elseif ($googleLanguage -in @("pt-BR", "pt-PT")) {
    $googleLanguage = "pt"
  }
  try {
    $response = Invoke-RestMethod `
      -Uri "https://translate.googleapis.com/translate_a/single" `
      -Method Post `
      -Headers $headers `
      -ContentType "application/x-www-form-urlencoded; charset=UTF-8" `
      -Body @{
        client = "gtx"
        sl = "en"
        tl = $googleLanguage
        dt = "t"
        q = $Payload
      } `
      -TimeoutSec 8
    if ($null -eq $response -or $null -eq $response[0]) {
      return $null
    }
    $translated = (
      $response[0] |
        ForEach-Object {
          if ($null -ne $_ -and $null -ne $_[0]) {
            [string]$_[0]
          }
        }
    ) -join ""
    if ([string]::IsNullOrWhiteSpace($translated)) {
      return $null
    }
    return $translated
  } catch {
    $statusCode = 0
    if ($null -ne $_.Exception.Response) {
      try {
        $statusCode = [int]$_.Exception.Response.StatusCode
      } catch {
        $statusCode = 0
      }
    }
    if ($statusCode -eq 429) {
      $script:googleRateLimited = $true
    } else {
      $script:providerUnavailable = $true
    }
    return $null
  }
}

function Try-ProcessGoogleBatch {
  param([object[]]$Items)
  $records = [Collections.Generic.List[string]]::new()
  foreach ($item in $Items) {
    $records.Add($item.Start + $item.Word + $item.End)
  }
  $translated = Invoke-GoogleProvider -Payload ($records -join "`n")
  if ([string]::IsNullOrWhiteSpace($translated)) {
    return $false
  }
  $pending = [ordered]@{}
  foreach ($item in $Items) {
    if ((Get-TokenCount -Text $translated -Token $item.Start) -ne 1) {
      return $false
    }
    if ((Get-TokenCount -Text $translated -Token $item.End) -ne 1) {
      return $false
    }
    $startIndex = $translated.IndexOf($item.Start, [StringComparison]::Ordinal)
    $valueStart = $startIndex + $item.Start.Length
    $endIndex = $translated.IndexOf(
      $item.End,
      $valueStart,
      [StringComparison]::Ordinal
    )
    if ($startIndex -lt 0 -or $endIndex -lt $valueStart) {
      return $false
    }
    $value = $translated.Substring($valueStart, $endIndex - $valueStart).Trim()
    if ([string]::IsNullOrWhiteSpace($value) -or $value.Contains($prefix)) {
      return $false
    }
    $pending[$item.Word] = $value
  }
  foreach ($translation in $pending.GetEnumerator()) {
    $script:result[$translation.Key] = $translation.Value
  }
  return $true
}

Invoke-EdgeBatches -Items ($entries.ToArray())
$myMemoryMissing = @(
  $entries |
    Where-Object { -not $script:result.Contains($_.Word) }
)
if ($myMemoryMissing.Count -gt 0) {
  Invoke-MyMemoryBatches -Items $myMemoryMissing
}
$missing = @(
  $entries |
    Where-Object { -not $script:result.Contains($_.Word) }
)
if ($missing.Count -gt 0) {
  [void](Try-ProcessGoogleBatch -Items $missing)
}

if ($script:result.Count -eq 0) {
  if (
    $script:edgeRateLimited -or
    $script:googleRateLimited -or
    $script:myMemoryRateLimited
  ) {
    [Console]::Error.WriteLine("RATE_LIMITED")
    exit 29
  }
  [Console]::Error.WriteLine("PROVIDER_UNAVAILABLE")
  exit 30
}
foreach ($word in $words) {
  if ($script:result.Contains($word)) {
    "$word`t$($script:result[$word])"
  }
}
"#;

/// The PowerShell program that the desktop build runs to ask the online
/// translation services for a batch of words.  It reads one word per line from
/// `-WordsPath`, asks the services for `-TargetLanguage`, and prints one
/// `word<TAB>translation` line per word it could translate; it exits with
/// `RATE_LIMITED` or `PROVIDER_UNAVAILABLE` on standard error when nothing came
/// back.
pub fn builtin_translation_powershell_script() -> (r: &'static str)
    ensures
        r@ == TRANSLATION_SCRIPT@,
{
    TRANSLATION_SCRIPT
}

} // verus!
